//! The tables that summarise the planned changes: their titles and rows,
//! cell by cell, with the style of each cell.

use vstd::prelude::*;
use vstd::string::*;
use crate::migration::change::dependency_list_text;
use crate::migration::changeset::{
    app_changes, AppChangeSet, AppChangeView, MigrationChangeSet, MigrationChangeView,
};
use crate::migration::group::{has_app_name, AppView, DjangoApp};
use crate::migration::project::{apps_view, ProjectView};

verus! {

/// The colour of a cell's text.
#[derive(Debug, Clone, Copy, PartialEq, Eq)]
pub enum CellColor {
    Red,
    Green,
    Blue,
    Magenta,
    Cyan,
    Black,
}

/// What a cell shows.
#[derive(Debug, Clone)]
pub enum CellValue {
    Text(String),
    Count(usize),
}

/// A cell of a table: what it shows, whether it is bold and its colour.
#[derive(Debug, Clone)]
pub struct TableCell {
    pub value: CellValue,
    pub bold: bool,
    pub color: Option<CellColor>,
}

/// A table: its title cells and its rows.
#[derive(Debug, Clone)]
pub struct Table {
    pub title: Vec<TableCell>,
    pub rows: Vec<Vec<TableCell>>,
}

/// What a cell shows.
pub enum ValueView {
    Text(Seq<char>),
    Count(nat),
}

/// What a cell is.
pub struct CellView {
    pub value: ValueView,
    pub bold: bool,
    pub color: Option<CellColor>,
}

/// What a table is.
pub struct TableView {
    pub title: Seq<CellView>,
    pub rows: Seq<Seq<CellView>>,
}

impl View for TableCell {
    type V = CellView;

    open spec fn view(&self) -> CellView {
        CellView {
            value: match &self.value {
                CellValue::Text(s) => ValueView::Text(s@),
                CellValue::Count(n) => ValueView::Count(*n as nat),
            },
            bold: self.bold,
            color: self.color,
        }
    }
}

/// The views of a row of cells.
pub open spec fn cells_view(v: Seq<TableCell>) -> Seq<CellView> {
    v.map_values(|c: TableCell| c@)
}

impl View for Table {
    type V = TableView;

    open spec fn view(&self) -> TableView {
        TableView { title: cells_view(self.title@), rows: self.rows@.map_values(|r: Vec<TableCell>| cells_view(r@)) }
    }
}

/// The tables that can be shown.
pub enum TableOptions<'a> {
    /// One row per app of a project.
    Summary(&'a Vec<(String, DjangoApp)>),
    /// The row of one app.
    SingleAppSummary(&'a str, &'a DjangoApp),
    /// One row per migration of an app that has changes.
    MigrationChanges(&'a str, &'a DjangoApp),
    /// One row per app of a project whose `max_migration.txt` changes.
    MaxMigrationChanges(&'a Vec<(String, DjangoApp)>),
    /// The change of one app's `max_migration.txt`.
    SingleAppMaxMigrationChanges(&'a str, &'a DjangoApp),
}

/// A cell with text.
pub open spec fn text_cell(t: Seq<char>, bold: bool, color: Option<CellColor>) -> CellView {
    CellView { value: ValueView::Text(t), bold, color }
}

/// A cell with a count.
pub open spec fn count_cell(n: nat, color: Option<CellColor>) -> CellView {
    CellView { value: ValueView::Count(n), bold: false, color }
}

/// The number of migration changes with a rename.
pub open spec fn rename_count(cs: Seq<MigrationChangeView>) -> nat
    decreases cs.len(),
{
    if cs.len() == 0 {
        0
    } else {
        rename_count(cs.drop_last()) + if cs.last().file_rename is Some {
            1nat
        } else {
            0nat
        }
    }
}

/// The number of migration changes with new dependencies.
pub open spec fn dependency_update_count(cs: Seq<MigrationChangeView>) -> nat
    decreases cs.len(),
{
    if cs.len() == 0 {
        0
    } else {
        dependency_update_count(cs.drop_last()) + if cs.last().dependency_updates is Some {
            1nat
        } else {
            0nat
        }
    }
}

/// The colour of a count: `color` where it is not zero.
pub open spec fn count_color(n: nat, color: CellColor) -> Option<CellColor> {
    if n > 0 {
        Some(color)
    } else {
        None
    }
}

/// The title of a summary table.
pub open spec fn summary_title() -> Seq<CellView> {
    seq![
        text_cell("App"@, true, Some(CellColor::Cyan)),
        text_cell("Total Migrations"@, true, None),
        text_cell("File Renames"@, true, Some(CellColor::Blue)),
        text_cell("Dependency Updates"@, true, Some(CellColor::Magenta)),
        text_cell("max_migration.txt Updated"@, true, Some(CellColor::Green)),
    ]
}

/// The summary row of app `a`: its name, the number of its migrations, of
/// its renames and of its dependency updates, and whether its
/// `max_migration.txt` changes.
pub open spec fn summary_row(a: AppView) -> Seq<CellView> {
    let c = app_changes(a);
    let renames = rename_count(c.migration_changes);
    let updates = dependency_update_count(c.migration_changes);
    let updated = c.max_migration_update is Some;
    seq![
        text_cell(c.app_name, true, None),
        count_cell(a.heads.len() + a.rebased.len(), None),
        count_cell(renames, count_color(renames, CellColor::Blue)),
        count_cell(updates, count_color(updates, CellColor::Magenta)),
        text_cell(
            if updated {
                "Yes"@
            } else {
                "No"@
            },
            false,
            if updated {
                Some(CellColor::Green)
            } else {
                None
            },
        ),
    ]
}

/// The row of a migration's changes: its name, its rename and its new
/// dependencies, or "No changes".
pub open spec fn migration_change_row(c: MigrationChangeView) -> Seq<CellView> {
    seq![
        text_cell(c.migration_file_name, true, None),
        match c.file_rename {
            Some(r) => text_cell(r.0 + " -> "@ + r.1, false, Some(CellColor::Blue)),
            None => text_cell("No changes"@, false, Some(CellColor::Black)),
        },
        match c.dependency_updates {
            Some(d) => text_cell(
                "["@ + dependency_list_text(d.0) + "] -> ["@ + dependency_list_text(d.1) + "]"@,
                false,
                Some(CellColor::Magenta),
            ),
            None => text_cell("No changes"@, false, Some(CellColor::Black)),
        },
    ]
}

/// The title of the table of `max_migration.txt` changes.
pub open spec fn max_change_title() -> Seq<CellView> {
    seq![
        text_cell("App"@, true, Some(CellColor::Cyan)),
        text_cell("Current max_migration.txt"@, true, Some(CellColor::Red)),
        text_cell("New max_migration.txt"@, true, Some(CellColor::Green)),
    ]
}

/// The row of a change of `max_migration.txt`.
pub open spec fn max_change_row(app_name: Seq<char>, m: (Seq<char>, Seq<char>)) -> Seq<CellView> {
    seq![
        text_cell(app_name, true, None),
        text_cell(m.0, false, Some(CellColor::Red)),
        text_cell(m.1, false, Some(CellColor::Green)),
    ]
}

/// The rows of the `max_migration.txt` changes of the apps that have one.
pub open spec fn max_change_rows(apps: ProjectView) -> Seq<Seq<CellView>>
    decreases apps.len(),
{
    if apps.len() == 0 {
        Seq::empty()
    } else {
        let rest = max_change_rows(apps.drop_last());
        let c = app_changes(apps.last().1);
        match c.max_migration_update {
            Some(m) => rest.push(max_change_row(c.app_name, m)),
            None => rest,
        }
    }
}

/// The table that `options` asks for.
pub open spec fn table_of(options: TableOptions) -> TableView {
    match options {
        TableOptions::Summary(apps) => TableView {
            title: summary_title(),
            rows: apps_view(apps@).map_values(|e: (Seq<char>, AppView)| summary_row(e.1)),
        },
        TableOptions::SingleAppSummary(_, app) => TableView { title: summary_title(), rows: seq![summary_row(app@)] },
        TableOptions::MigrationChanges(_, app) => {
            let c = app_changes(app@);
            TableView {
                title: seq![
                    text_cell("Migration ("@ + c.app_name + ")"@, true, Some(CellColor::Cyan)),
                    text_cell("File Name Changes"@, true, Some(CellColor::Blue)),
                    text_cell("Dependency Changes"@, true, Some(CellColor::Magenta)),
                ],
                rows: c.migration_changes.map_values(|m: MigrationChangeView| migration_change_row(m)),
            }
        },
        TableOptions::MaxMigrationChanges(apps) => TableView {
            title: max_change_title(),
            rows: max_change_rows(apps_view(apps@)),
        },
        TableOptions::SingleAppMaxMigrationChanges(_, app) => {
            let c = app_changes(app@);
            match c.max_migration_update {
                Some(m) => TableView { title: max_change_title(), rows: seq![max_change_row(c.app_name, m)] },
                None => TableView {
                    title: seq![text_cell("max_migration.txt"@, true, None)],
                    rows: seq![seq![text_cell("No changes"@, false, None)]],
                },
            }
        },
    }
}

/// An app whose summary can be counted: it has a name, and the number of
/// its migrations fits in a `usize`.
pub open spec fn summarisable(app: DjangoApp) -> bool {
    has_app_name(app.directory@) && app.head_migrations@.len() + app.rebased_migrations@.len() <= usize::MAX
}

/// The apps of `options` have names, and those of a summary can be
/// counted.
pub open spec fn options_named(options: TableOptions) -> bool {
    match options {
        TableOptions::Summary(apps) => forall|i: int| 0 <= i < apps@.len() ==> summarisable(#[trigger] apps@[i].1),
        TableOptions::SingleAppSummary(_, app) => summarisable(*app),
        TableOptions::MigrationChanges(_, app) => has_app_name(app.directory@),
        TableOptions::MaxMigrationChanges(apps) => forall|i: int|
            0 <= i < apps@.len() ==> has_app_name(#[trigger] apps@[i].1.directory@),
        TableOptions::SingleAppMaxMigrationChanges(_, app) => has_app_name(app.directory@),
    }
}

/// A cell with text.
fn text(t: &str, bold: bool, color: Option<CellColor>) -> (r: TableCell)
    ensures
        r@ == text_cell(t@, bold, color),
{
    TableCell { value: CellValue::Text(String::from_str(t)), bold, color }
}

/// A cell with a count.
fn count(n: usize, color: Option<CellColor>) -> (r: TableCell)
    ensures
        r@ == count_cell(n as nat, color),
{
    TableCell { value: CellValue::Count(n), bold: false, color }
}

/// The title of a summary table.
fn summary_title_cells() -> (r: Vec<TableCell>)
    ensures
        cells_view(r@) == summary_title(),
{
    let r = vec![
        text("App", true, Some(CellColor::Cyan)),
        text("Total Migrations", true, None),
        text("File Renames", true, Some(CellColor::Blue)),
        text("Dependency Updates", true, Some(CellColor::Magenta)),
        text("max_migration.txt Updated", true, Some(CellColor::Green)),
    ];
    assert(cells_view(r@) =~= summary_title());
    r
}

/// The title of the table of `max_migration.txt` changes.
fn max_change_title_cells() -> (r: Vec<TableCell>)
    ensures
        cells_view(r@) == max_change_title(),
{
    let r = vec![
        text("App", true, Some(CellColor::Cyan)),
        text("Current max_migration.txt", true, Some(CellColor::Red)),
        text("New max_migration.txt", true, Some(CellColor::Green)),
    ];
    assert(cells_view(r@) =~= max_change_title());
    r
}

/// The summary row of `app`.
fn summary_cells(app: &DjangoApp) -> (r: Vec<TableCell>)
    requires
        has_app_name(app.directory@),
        app.head_migrations@.len() + app.rebased_migrations@.len() <= usize::MAX,
    ensures
        cells_view(r@) == summary_row(app@),
{
    let changeset = AppChangeSet::from(app);
    let ghost cs = changeset@.migration_changes;
    let n_heads = app.head_migrations.len();
    let n_rebased = app.rebased_migrations.len();
    let total = n_heads + n_rebased;
    let mut renames: usize = 0;
    let mut updates: usize = 0;
    let mut i: usize = 0;
    while i < changeset.migration_changes.len()
        invariant
            i <= changeset.migration_changes.len(),
            cs == changeset@.migration_changes,
            renames == rename_count(cs.take(i as int)),
            updates == dependency_update_count(cs.take(i as int)),
            renames <= i,
            updates <= i,
        decreases changeset.migration_changes.len() - i,
    {
        proof {
            assert(cs.take(i + 1).drop_last() =~= cs.take(i as int));
            assert(cs.take(i + 1).last() == changeset.migration_changes@[i as int]@);
        }
        if changeset.migration_changes[i].file_rename.is_some() {
            renames = renames + 1;
        }
        if changeset.migration_changes[i].dependency_updates.is_some() {
            updates = updates + 1;
        }
        i = i + 1;
    }
    assert(cs.take(changeset.migration_changes.len() as int) =~= cs);
    let updated = changeset.max_migration_update.is_some();
    let r = vec![
        TableCell { value: CellValue::Text(changeset.app_name.clone()), bold: true, color: None },
        count(total, None),
        count(renames, if renames > 0 { Some(CellColor::Blue) } else { None }),
        count(updates, if updates > 0 { Some(CellColor::Magenta) } else { None }),
        if updated {
            text("Yes", false, Some(CellColor::Green))
        } else {
            text("No", false, None)
        },
    ];
    assert(total == app@.heads.len() + app@.rebased.len());
    assert(cells_view(r@) =~= summary_row(app@));
    r
}

/// The row of a migration's changes.
fn migration_change_cells(c: &MigrationChangeSet) -> (r: Vec<TableCell>)
    ensures
        cells_view(r@) == migration_change_row(c@),
{
    let file_changes = match &c.file_rename {
        Some(change) => TableCell {
            value: CellValue::Text(change.to_string()),
            bold: false,
            color: Some(CellColor::Blue),
        },
        None => text("No changes", false, Some(CellColor::Black)),
    };
    let dependency_changes = match &c.dependency_updates {
        Some(change) => TableCell {
            value: CellValue::Text(change.to_string()),
            bold: false,
            color: Some(CellColor::Magenta),
        },
        None => text("No changes", false, Some(CellColor::Black)),
    };
    let r = vec![
        TableCell { value: CellValue::Text(c.migration_file_name.to_string()), bold: true, color: None },
        file_changes,
        dependency_changes,
    ];
    assert(cells_view(r@) =~= migration_change_row(c@));
    r
}

/// The row of the change of an app's `max_migration.txt`.
fn max_change_cells(changeset: &AppChangeSet) -> (r: Option<Vec<TableCell>>)
    ensures
        match changeset@.max_migration_update {
            Some(m) => r matches Some(cells) && cells_view(cells@) == max_change_row(changeset@.app_name, m),
            None => r is None,
        },
{
    match &changeset.max_migration_update {
        Some(m) => {
            let r = vec![
                TableCell { value: CellValue::Text(changeset.app_name.clone()), bold: true, color: None },
                TableCell { value: CellValue::Text(m.old.to_string()), bold: false, color: Some(CellColor::Red) },
                TableCell { value: CellValue::Text(m.new.to_string()), bold: false, color: Some(CellColor::Green) },
            ];
            assert(cells_view(r@) =~= max_change_row(changeset@.app_name, (m.old@, m.new@)));
            Some(r)
        },
        None => None,
    }
}

/// The table that `options` asks for.
pub fn get_table(options: TableOptions) -> (r: Table)
    requires
        options_named(options),
    ensures
        r@ == table_of(options),
{
    match options {
        TableOptions::Summary(apps) => {
            let ghost v = apps_view(apps@);
            let mut rows: Vec<Vec<TableCell>> = Vec::new();
            let mut i: usize = 0;
            while i < apps.len()
                invariant
                    i <= apps@.len(),
                    v == apps_view(apps@),
                    forall|i: int| 0 <= i < apps@.len() ==> summarisable(#[trigger] apps@[i].1),
                    rows@.map_values(|r: Vec<TableCell>| cells_view(r@)) =~= v.take(i as int).map_values(
                        |e: (Seq<char>, AppView)| summary_row(e.1),
                    ),
                decreases apps@.len() - i,
            {
                assert(summarisable(apps@[i as int].1));
                let row = summary_cells(&apps[i].1);
                assert(v[i as int].1 == apps@[i as int].1@);
                let ghost before = rows@.map_values(|r: Vec<TableCell>| cells_view(r@));
                rows.push(row);
                assert(rows@.map_values(|r: Vec<TableCell>| cells_view(r@)) =~= before.push(cells_view(row@)));
                assert(v.take(i + 1) =~= v.take(i as int).push(v[i as int]));
                i = i + 1;
            }
            assert(v.take(apps@.len() as int) =~= v);
            Table { title: summary_title_cells(), rows }
        },
        TableOptions::SingleAppSummary(_, app) => {
            let row = summary_cells(app);
            let rows = vec![row];
            let r = Table { title: summary_title_cells(), rows };
            assert(r@.rows =~= seq![summary_row(app@)]);
            r
        },
        TableOptions::MigrationChanges(_, app) => {
            let changeset = AppChangeSet::from(app);
            let ghost cs = changeset@.migration_changes;
            let mut rows: Vec<Vec<TableCell>> = Vec::new();
            let mut i: usize = 0;
            while i < changeset.migration_changes.len()
                invariant
                    i <= changeset.migration_changes.len(),
                    cs == changeset@.migration_changes,
                    rows@.map_values(|r: Vec<TableCell>| cells_view(r@)) =~= cs.take(i as int).map_values(
                        |m: MigrationChangeView| migration_change_row(m),
                    ),
                decreases changeset.migration_changes.len() - i,
            {
                let row = migration_change_cells(&changeset.migration_changes[i]);
                assert(cs[i as int] == changeset.migration_changes@[i as int]@);
                let ghost before = rows@.map_values(|r: Vec<TableCell>| cells_view(r@));
                rows.push(row);
                assert(rows@.map_values(|r: Vec<TableCell>| cells_view(r@)) =~= before.push(cells_view(row@)));
                assert(cs.take(i + 1) =~= cs.take(i as int).push(cs[i as int]));
                i = i + 1;
            }
            assert(cs.take(changeset.migration_changes.len() as int) =~= cs);
            let mut heading = String::from_str("Migration (");
            heading.append(changeset.app_name.as_str());
            heading.append(")");
            let title = vec![
                TableCell { value: CellValue::Text(heading), bold: true, color: Some(CellColor::Cyan) },
                text("File Name Changes", true, Some(CellColor::Blue)),
                text("Dependency Changes", true, Some(CellColor::Magenta)),
            ];
            let r = Table { title, rows };
            assert(r@.title =~= table_of(options).title);
            r
        },
        TableOptions::MaxMigrationChanges(apps) => {
            let ghost v = apps_view(apps@);
            let mut rows: Vec<Vec<TableCell>> = Vec::new();
            let mut i: usize = 0;
            assert(v.take(0) =~= Seq::<(Seq<char>, AppView)>::empty());
            while i < apps.len()
                invariant
                    i <= apps@.len(),
                    v == apps_view(apps@),
                    forall|i: int| 0 <= i < apps@.len() ==> has_app_name(#[trigger] apps@[i].1.directory@),
                    rows@.map_values(|r: Vec<TableCell>| cells_view(r@)) =~= max_change_rows(v.take(i as int)),
                decreases apps@.len() - i,
            {
                assert(has_app_name(apps@[i as int].1.directory@));
                proof {
                    assert(v.take(i + 1).drop_last() =~= v.take(i as int));
                    assert(v.take(i + 1).last().1 == apps@[i as int].1@);
                }
                let changeset = AppChangeSet::from(&apps[i].1);
                let ghost before = rows@.map_values(|r: Vec<TableCell>| cells_view(r@));
                match max_change_cells(&changeset) {
                    Some(row) => {
                        rows.push(row);
                        assert(rows@.map_values(|r: Vec<TableCell>| cells_view(r@)) =~= before.push(cells_view(row@)));
                    },
                    None => {},
                }
                i = i + 1;
            }
            assert(v.take(apps@.len() as int) =~= v);
            Table { title: max_change_title_cells(), rows }
        },
        TableOptions::SingleAppMaxMigrationChanges(_, app) => {
            let changeset = AppChangeSet::from(app);
            match max_change_cells(&changeset) {
                Some(row) => {
                    let r = Table { title: max_change_title_cells(), rows: vec![row] };
                    assert(r@.rows =~= table_of(options).rows);
                    r
                },
                None => {
                    let r = Table {
                        title: vec![text("max_migration.txt", true, None)],
                        rows: vec![vec![text("No changes", false, None)]],
                    };
                    assert(r@.title =~= table_of(options).title);
                    assert(r@.rows[0] =~= table_of(options).rows[0]);
                    assert(r@.rows =~= table_of(options).rows);
                    r
                },
            }
        },
    }
}

} // verus!
