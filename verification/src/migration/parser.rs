//! Reading a migration's Python source: the parts of its syntax tree that
//! name the `Migration` class, its `dependencies` assignment and the
//! dependency tuples in it.

use vstd::prelude::*;
use vstd::string::*;
use vstd::utf8::encode_utf8;
use rustpython_parser::{ast, text_size::TextRange, Parse};
use crate::migration::file::{parse_file_name, MigrationDependency, MigrationFileName};

verus! {

#[verifier::external_type_specification]
#[verifier::external_body]
pub struct ExTextRange(TextRange);

#[verifier::external_type_specification]
#[verifier::external_body]
#[verifier::reject_recursive_types(R)]
pub struct ExPythonStatement<R>(ast::Stmt<R>);

#[verifier::external_type_specification]
#[verifier::external_body]
#[verifier::reject_recursive_types(R)]
pub struct ExPythonExpression<R>(ast::Expr<R>);

/// An element of a dependency tuple.
#[derive(Debug)]
pub enum PyAtom {
    /// A string constant.
    Str(String),
    /// A constant that is not a string.
    NonStrConstant,
    /// Any other expression.
    Other,
}

/// What an element of a tuple is.
pub enum AtomView {
    Str(Seq<char>),
    NonStrConstant,
    Other,
}

impl View for PyAtom {
    type V = AtomView;

    open spec fn view(&self) -> AtomView {
        match self {
            PyAtom::Str(s) => AtomView::Str(s@),
            PyAtom::NonStrConstant => AtomView::NonStrConstant,
            PyAtom::Other => AtomView::Other,
        }
    }
}

/// An element of the `dependencies` list.
#[derive(Debug)]
pub enum PyExpr {
    /// A tuple, with its elements.
    Tuple(Vec<PyAtom>),
    /// Any other expression.
    Other,
}

/// The elements of a tuple.
pub open spec fn atoms_view(v: Seq<PyAtom>) -> Seq<AtomView> {
    v.map_values(|a: PyAtom| a@)
}

impl View for PyExpr {
    /// The elements where the expression is a tuple.
    type V = Option<Seq<AtomView>>;

    open spec fn view(&self) -> Option<Seq<AtomView>> {
        match self {
            PyExpr::Tuple(v) => Some(atoms_view(v@)),
            PyExpr::Other => None,
        }
    }
}

/// A target of an assignment.
#[derive(Debug)]
pub enum PyTarget {
    /// A plain name.
    Name(String),
    /// Any other target.
    Other,
}

impl View for PyTarget {
    /// The name, where the target is a plain name.
    type V = Option<Seq<char>>;

    open spec fn view(&self) -> Option<Seq<char>> {
        match self {
            PyTarget::Name(n) => Some(n@),
            PyTarget::Other => None,
        }
    }
}

/// An assignment statement, with its byte range in the source.
#[derive(Debug)]
pub struct PyAssign {
    pub targets: Vec<PyTarget>,
    /// The elements of the assigned value, where it is a list.
    pub value: Option<Vec<PyExpr>>,
    pub start: u32,
    pub end: u32,
}

/// What an assignment is.
pub struct AssignView {
    pub targets: Seq<Option<Seq<char>>>,
    pub value: Option<Seq<Option<Seq<AtomView>>>>,
    pub start: u32,
    pub end: u32,
}

/// The elements of a list.
pub open spec fn exprs_view(v: Seq<PyExpr>) -> Seq<Option<Seq<AtomView>>> {
    v.map_values(|e: PyExpr| e@)
}

impl View for PyAssign {
    type V = AssignView;

    open spec fn view(&self) -> AssignView {
        AssignView {
            targets: self.targets@.map_values(|t: PyTarget| t@),
            value: match &self.value {
                Some(v) => Some(exprs_view(v@)),
                None => None,
            },
            start: self.start,
            end: self.end,
        }
    }
}

/// A statement in a class body.
#[derive(Debug)]
pub enum PyBodyStmt {
    Assign(PyAssign),
    Other,
}

impl View for PyBodyStmt {
    /// The assignment, where the statement is one.
    type V = Option<AssignView>;

    open spec fn view(&self) -> Option<AssignView> {
        match self {
            PyBodyStmt::Assign(a) => Some(a@),
            PyBodyStmt::Other => None,
        }
    }
}

/// A class definition.
#[derive(Debug)]
pub struct PyClassDef {
    pub name: String,
    pub body: Vec<PyBodyStmt>,
}

/// What a class definition is.
pub struct ClassView {
    pub name: Seq<char>,
    pub body: Seq<Option<AssignView>>,
}

impl View for PyClassDef {
    type V = ClassView;

    open spec fn view(&self) -> ClassView {
        ClassView { name: self.name@, body: self.body@.map_values(|b: PyBodyStmt| b@) }
    }
}

/// A top-level statement of a module.
#[derive(Debug)]
pub enum PyStmt {
    ClassDef(PyClassDef),
    Other,
}

impl View for PyStmt {
    /// The class, where the statement defines one.
    type V = Option<ClassView>;

    open spec fn view(&self) -> Option<ClassView> {
        match self {
            PyStmt::ClassDef(c) => Some(c@),
            PyStmt::Other => None,
        }
    }
}

/// The top-level statements of a module.
pub open spec fn module_view(v: Seq<PyStmt>) -> Seq<Option<ClassView>> {
    v.map_values(|s: PyStmt| s@)
}

/// What the Python parser makes of `source` (named `source_path` in its
/// messages): the module's statements, or the parser's message.
pub uninterp spec fn python_module(source: Seq<char>, source_path: Seq<char>) -> Result<
    Seq<Option<ClassView>>,
    Seq<char>,
>;

/// A source that the parser can take: its offsets are 32-bit, so the
/// source holds at most `u32::MAX` bytes of UTF-8; a longer one makes the
/// parser panic.
pub open spec fn fits_parser(source: Seq<char>) -> bool {
    encode_utf8(source).len() <= u32::MAX
}

/// Every assignment of every class of `m` ends at or after its start.
pub open spec fn ranges_ordered(m: Seq<Option<ClassView>>) -> bool {
    forall|i: int, j: int|
        0 <= i < m.len() && m[i] is Some && 0 <= j < m[i]->Some_0.body.len()
            && m[i]->Some_0.body[j] is Some ==> #[trigger] m[i]->Some_0.body[j]->Some_0.start
            <= m[i]->Some_0.body[j]->Some_0.end
}

/// Parses `source` as a Python module with `ast::Suite::parse` of
/// rustpython_parser and keeps of it what the migration logic reads; the
/// parser's error is kept as its message. The contract names the result
/// and states that each node's range starts before it ends, as the range
/// type of the parser keeps. The parser's offsets are 32-bit: a source of
/// more than `u32::MAX` bytes is left out, as the parser panics on it.
#[verifier::external_body]
fn parse_python_module(source: &str, source_path: &str) -> (r: Result<Vec<PyStmt>, String>)
    requires
        source.spec_bytes().len() <= u32::MAX,
    ensures
        match r {
            Ok(v) => python_module(source@, source_path@) == Ok::<Seq<Option<ClassView>>, Seq<char>>(
                module_view(v@),
            ) && ranges_ordered(module_view(v@)),
            Err(e) => python_module(source@, source_path@) == Err::<Seq<Option<ClassView>>, Seq<char>>(
                e@,
            ),
        },
{
    match ast::Suite::parse(source, source_path) {
        Ok(suite) => Ok(suite.iter().map(|s| convert_statement(s)).collect()),
        Err(e) => Err(e.to_string()),
    }
}

/// Keeps of a top-level statement its class name and body.
#[verifier::external_body]
fn convert_statement(s: &ast::Stmt) -> PyStmt {
    match s {
        ast::Stmt::ClassDef(c) => PyStmt::ClassDef(
            PyClassDef { name: c.name.to_string(), body: c.body.iter().map(|b| convert_body_statement(b)).collect() },
        ),
        _ => PyStmt::Other,
    }
}

/// Keeps of a class-body statement its assignment: targets, list value and
/// byte range.
#[verifier::external_body]
fn convert_body_statement(s: &ast::Stmt) -> PyBodyStmt {
    match s {
        ast::Stmt::Assign(a) => PyBodyStmt::Assign(
            PyAssign {
                targets: a.targets.iter().map(|t| convert_target(t)).collect(),
                value: convert_list(&a.value),
                start: u32::from(a.range.start()),
                end: u32::from(a.range.end()),
            },
        ),
        _ => PyBodyStmt::Other,
    }
}

/// Keeps of an assignment target its name.
#[verifier::external_body]
fn convert_target(e: &ast::Expr) -> PyTarget {
    match e {
        ast::Expr::Name(n) => PyTarget::Name(n.id.to_string()),
        _ => PyTarget::Other,
    }
}

/// Keeps of an assigned list its elements.
#[verifier::external_body]
fn convert_list(e: &ast::Expr) -> Option<Vec<PyExpr>> {
    match e {
        ast::Expr::List(l) => Some(l.elts.iter().map(|x| convert_element(x)).collect()),
        _ => None,
    }
}

/// Keeps of a list element the elements of its tuple.
#[verifier::external_body]
fn convert_element(e: &ast::Expr) -> PyExpr {
    match e {
        ast::Expr::Tuple(t) => PyExpr::Tuple(t.elts.iter().map(|x| convert_atom(x)).collect()),
        _ => PyExpr::Other,
    }
}

/// Keeps of a tuple element its string constant.
#[verifier::external_body]
fn convert_atom(e: &ast::Expr) -> PyAtom {
    match e {
        ast::Expr::Constant(c) => match c.value.as_str() {
            Some(s) => PyAtom::Str(s.to_string()),
            None => PyAtom::NonStrConstant,
        },
        _ => PyAtom::Other,
    }
}


/// The first class named `Migration` among the statements of `m`.
pub open spec fn first_migration_class(m: Seq<Option<ClassView>>) -> Option<ClassView>
    decreases m.len(),
{
    if m.len() == 0 {
        None
    } else if m[0] is Some && m[0]->Some_0.name == "Migration"@ {
        m[0]
    } else {
        first_migration_class(m.drop_first())
    }
}

/// One of the targets of `a` is the plain name `dependencies`.
pub open spec fn assigns_dependencies(a: AssignView) -> bool {
    exists|i: int| 0 <= i < a.targets.len() && a.targets[i] == Some("dependencies"@)
}

/// The first assignment to `dependencies` among the statements of `body`.
pub open spec fn first_dependencies_assignment(body: Seq<Option<AssignView>>) -> Option<AssignView>
    decreases body.len(),
{
    if body.len() == 0 {
        None
    } else if body[0] is Some && assigns_dependencies(body[0]->Some_0) {
        body[0]
    } else {
        first_dependencies_assignment(body.drop_first())
    }
}

/// The migration file name in the second element of the tuple `e`.
pub open spec fn file_name_from_element(e: Option<Seq<AtomView>>) -> Result<Seq<char>, Seq<char>> {
    match e {
        None => Err("Expression is not a tuple"@),
        Some(t) => if t.len() != 2 {
            Err("Tuple must have exactly 2 elements"@)
        } else {
            match t[1] {
                AtomView::Str(s) => parse_file_name(s),
                AtomView::NonStrConstant => Err("Second tuple element is not a string constant"@),
                AtomView::Other => Err("Second tuple element is not a constant"@),
            }
        },
    }
}

/// The dependency that the tuple `e` names: its app, then its migration.
pub open spec fn dependency_from_element(e: Option<Seq<AtomView>>) -> Result<(Seq<char>, Seq<char>), Seq<char>> {
    match e {
        None => Err("Expression is not a tuple"@),
        Some(t) => if t.len() != 2 {
            Err("Tuple must have exactly 2 elements"@)
        } else {
            match t[0] {
                AtomView::Str(app) => match file_name_from_element(e) {
                    Ok(f) => Ok((app, f)),
                    Err(x) => Err(x),
                },
                AtomView::NonStrConstant => Err("First tuple element is not a string constant"@),
                AtomView::Other => Err("First tuple element is not a constant"@),
            }
        },
    }
}

/// The dependencies named by the elements of `es` that name one, in order.
pub open spec fn dependencies_from_elements(es: Seq<Option<Seq<AtomView>>>) -> Seq<(Seq<char>, Seq<char>)>
    decreases es.len(),
{
    if es.len() == 0 {
        Seq::empty()
    } else {
        let prefix = dependencies_from_elements(es.drop_last());
        match dependency_from_element(es.last()) {
            Ok(d) => prefix.push(d),
            Err(_) => prefix,
        }
    }
}

/// The elements of a `dependencies` list that name a dependency.
pub open spec fn names_dependency() -> spec_fn(Option<Seq<AtomView>>) -> bool {
    |e: Option<Seq<AtomView>>| dependency_from_element(e) is Ok
}

/// Reading a `dependencies` list keeps every element that names a
/// dependency, in list order, whatever stands before or after it, and
/// skips the others: the dependencies read are those of the elements that
/// name one, each in its place, and every such element gives one.
pub proof fn lemma_dependencies_read_all(es: Seq<Option<Seq<AtomView>>>)
    ensures
        dependencies_from_elements(es) == es.filter(names_dependency()).map_values(
            |e: Option<Seq<AtomView>>| dependency_from_element(e)->Ok_0,
        ),
        forall|k: int|
            0 <= k < es.len() && #[trigger] dependency_from_element(es[k]) is Ok ==> dependencies_from_elements(
                es,
            ).contains(dependency_from_element(es[k])->Ok_0),
        forall|t: int|
            0 <= t < dependencies_from_elements(es).len() ==> exists|k: int|
                0 <= k < es.len() && dependency_from_element(es[k]) == Ok::<(Seq<char>, Seq<char>), Seq<char>>(
                    #[trigger] dependencies_from_elements(es)[t],
                ),
    decreases es.len(),
{
    reveal(Seq::filter);
    let f = |e: Option<Seq<AtomView>>| dependency_from_element(e)->Ok_0;
    let r = dependencies_from_elements(es);
    if es.len() == 0 {
        assert(es.filter(names_dependency()) =~= Seq::<Option<Seq<AtomView>>>::empty());
        assert(r =~= es.filter(names_dependency()).map_values(f));
    } else {
        let d = es.drop_last();
        lemma_dependencies_read_all(d);
        let p = dependencies_from_elements(d);
        assert(es.filter(names_dependency()) == if names_dependency()(es.last()) {
            d.filter(names_dependency()).push(es.last())
        } else {
            d.filter(names_dependency())
        });
        if dependency_from_element(es.last()) is Ok {
            assert(d.filter(names_dependency()).push(es.last()).map_values(f) =~= d.filter(names_dependency()).map_values(
                f,
            ).push(f(es.last())));
        }
        assert(r =~= es.filter(names_dependency()).map_values(f));
        assert forall|k: int|
            0 <= k < es.len() && #[trigger] dependency_from_element(es[k]) is Ok implies r.contains(
            dependency_from_element(es[k])->Ok_0,
        ) by {
            if k == es.len() - 1 {
                assert(r[r.len() - 1] == dependency_from_element(es[k])->Ok_0);
            } else {
                assert(es[k] == d[k]);
                assert(dependency_from_element(d[k]) is Ok);
                let x = choose|x: int| 0 <= x < p.len() && p[x] == dependency_from_element(d[k])->Ok_0;
                assert(r[x] == p[x]);
            }
        }
        assert forall|t: int| 0 <= t < r.len() implies exists|k: int|
            0 <= k < es.len() && dependency_from_element(es[k]) == Ok::<(Seq<char>, Seq<char>), Seq<char>>(
                #[trigger] r[t],
            ) by {
            if t < p.len() {
                assert(r[t] == p[t]);
                let k = choose|k: int|
                    0 <= k < d.len() && dependency_from_element(d[k]) == Ok::<(Seq<char>, Seq<char>), Seq<char>>(
                        #[trigger] p[t],
                    );
                assert(es[k] == d[k]);
            } else {
                assert(dependency_from_element(es[es.len() - 1]) == Ok::<(Seq<char>, Seq<char>), Seq<char>>(r[t]));
            }
        }
    }
}

/// The dependencies of the module `m`: those of the list assigned to
/// `dependencies` in its `Migration` class, or none.
pub open spec fn module_dependencies(m: Seq<Option<ClassView>>) -> Seq<(Seq<char>, Seq<char>)> {
    match first_migration_class(m) {
        None => Seq::empty(),
        Some(c) => match first_dependencies_assignment(c.body) {
            None => Seq::empty(),
            Some(a) => match a.value {
                None => Seq::empty(),
                Some(es) => dependencies_from_elements(es),
            },
        },
    }
}

/// Where the assignment to `dependencies` of the module `m` (read from the
/// file `path`) stands, as a byte range, or why it cannot be found.
pub open spec fn dependency_location(m: Seq<Option<ClassView>>, path: Seq<char>) -> Result<(u32, u32), Seq<char>> {
    match first_migration_class(m) {
        None => Err("Migration class not found in file "@ + path),
        Some(c) => match first_dependencies_assignment(c.body) {
            None => Err("Dependencies assignment not found in Migration class in file "@ + path),
            Some(a) => Ok((a.start, a.end)),
        },
    }
}

/// A migration file read as Python.
pub struct MigrationParser {
    pub file_path: String,
    pub module: Vec<PyStmt>,
}

impl MigrationParser {
    /// Parses the Python `source` of the file `python_path`; the source
    /// must fit the parser's 32-bit offsets.
    pub fn new(python_path: &str, source: &str) -> (r: Result<MigrationParser, String>)
        requires
            fits_parser(source@),
        ensures
            match r {
                Ok(p) => {
                    &&& python_module(source@, python_path@) == Ok::<Seq<Option<ClassView>>, Seq<char>>(
                        module_view(p.module@),
                    )
                    &&& ranges_ordered(module_view(p.module@))
                    &&& p.file_path@ == python_path@
                },
                Err(e) => exists|x: Seq<char>|
                    python_module(source@, python_path@) == Err::<Seq<Option<ClassView>>, Seq<char>>(x)
                        && e@ == "Failed to parse python statements: "@ + x,
            },
    {
        match parse_python_module(source, python_path) {
            Ok(module) => Ok(MigrationParser { file_path: String::from_str(python_path), module }),
            Err(e) => {
                let mut msg = String::from_str("Failed to parse python statements: ");
                msg.append(e.as_str());
                Err(msg)
            },
        }
    }

    /// The first class named `Migration`.
    pub fn find_migration_class(&self) -> (r: Result<&PyClassDef, String>)
        ensures
            match r {
                Ok(c) => first_migration_class(module_view(self.module@)) == Some(c@),
                Err(e) => first_migration_class(module_view(self.module@)) is None
                    && e@ == "Migration class not found in file "@ + self.file_path@,
            },
    {
        let ghost m = module_view(self.module@);
        let mut i: usize = 0;
        assert(m.skip(0) =~= m);
        while i < self.module.len()
            invariant
                i <= self.module.len(),
                m == module_view(self.module@),
                first_migration_class(m) == first_migration_class(m.skip(i as int)),
            decreases self.module.len() - i,
        {
            proof {
                assert(m.skip(i as int).drop_first() =~= m.skip(i + 1));
                assert(m.skip(i as int)[0] == self.module@[i as int]@);
            }
            if let PyStmt::ClassDef(c) = &self.module[i] {
                if is_named(c.name.as_str(), "Migration") {
                    return Ok(c);
                }
            }
            i = i + 1;
        }
        let mut msg = String::from_str("Migration class not found in file ");
        msg.append(self.file_path.as_str());
        Err(msg)
    }

    /// The first assignment to `dependencies` in the class body.
    pub fn find_dependencies_assignment<'a>(&self, migration_class: &'a PyClassDef) -> (r: Result<&'a PyAssign, String>)
        ensures
            match r {
                Ok(a) => first_dependencies_assignment(migration_class@.body) == Some(a@),
                Err(e) => first_dependencies_assignment(migration_class@.body) is None
                    && e@ == "Dependencies assignment not found in Migration class in file "@ + self.file_path@,
            },
    {
        let ghost b = migration_class@.body;
        let mut i: usize = 0;
        assert(b.skip(0) =~= b);
        while i < migration_class.body.len()
            invariant
                i <= migration_class.body.len(),
                b == migration_class@.body,
                first_dependencies_assignment(b) == first_dependencies_assignment(b.skip(i as int)),
            decreases migration_class.body.len() - i,
        {
            proof {
                assert(b.skip(i as int).drop_first() =~= b.skip(i + 1));
                assert(b.skip(i as int)[0] == migration_class.body@[i as int]@);
            }
            if let PyBodyStmt::Assign(a) = &migration_class.body[i] {
                if self.is_dependencies_assignment(a) {
                    return Ok(a);
                }
            }
            i = i + 1;
        }
        let mut msg = String::from_str("Dependencies assignment not found in Migration class in file ");
        msg.append(self.file_path.as_str());
        Err(msg)
    }

    /// Whether one of the targets of `assign` is the name `dependencies`.
    pub fn is_dependencies_assignment(&self, assign: &PyAssign) -> (r: bool)
        ensures
            r == assigns_dependencies(assign@),
    {
        let mut i: usize = 0;
        while i < assign.targets.len()
            invariant
                i <= assign.targets.len(),
                forall|k: int| 0 <= k < i ==> assign@.targets[k] != Some("dependencies"@),
            decreases assign.targets.len() - i,
        {
            assert(assign@.targets[i as int] == assign.targets@[i as int]@);
            if let PyTarget::Name(n) = &assign.targets[i] {
                if is_named(n.as_str(), "dependencies") {
                    return true;
                }
            }
            i = i + 1;
        }
        false
    }

    /// The elements of the list assigned, where the value is a list.
    pub fn extract_dependency_tuples<'a>(&self, assignment: &'a PyAssign) -> (r: Result<&'a Vec<PyExpr>, String>)
        ensures
            match r {
                Ok(v) => assignment@.value == Some(exprs_view(v@)),
                Err(e) => assignment@.value is None && e@ == "Dependencies should be a list in file "@ + self.file_path@,
            },
    {
        match &assignment.value {
            Some(v) => Ok(v),
            None => {
                let mut msg = String::from_str("Dependencies should be a list in file ");
                msg.append(self.file_path.as_str());
                Err(msg)
            },
        }
    }

    /// The byte range of the assignment to `dependencies` in the
    /// `Migration` class.
    pub fn find_dependency_location(&self) -> (r: Result<(u32, u32), String>)
        ensures
            match r {
                Ok(loc) => dependency_location(module_view(self.module@), self.file_path@) == Ok::<(u32, u32), Seq<char>>(loc),
                Err(e) => dependency_location(module_view(self.module@), self.file_path@) == Err::<(u32, u32), Seq<char>>(e@),
            },
    {
        let migration_class = self.find_migration_class()?;
        let assignment = self.find_dependencies_assignment(migration_class)?;
        Ok((assignment.start, assignment.end))
    }

    /// The dependencies listed in the `Migration` class; tuples that do not
    /// name a dependency are left out, and a module without such a list has
    /// none.
    pub fn get_dependencies(&self) -> (r: Vec<MigrationDependency>)
        ensures
            r@.map_values(|d: MigrationDependency| d@) == module_dependencies(module_view(self.module@)),
    {
        let empty: Vec<MigrationDependency> = Vec::new();
        let migration_class = match self.find_migration_class() {
            Ok(c) => c,
            Err(_) => {
                assert(empty@.map_values(|d: MigrationDependency| d@) =~= Seq::empty());
                return empty;
            },
        };
        let assignment = match self.find_dependencies_assignment(migration_class) {
            Ok(a) => a,
            Err(_) => {
                assert(empty@.map_values(|d: MigrationDependency| d@) =~= Seq::empty());
                return empty;
            },
        };
        let tuples = match self.extract_dependency_tuples(assignment) {
            Ok(t) => t,
            Err(_) => {
                assert(empty@.map_values(|d: MigrationDependency| d@) =~= Seq::empty());
                return empty;
            },
        };
        let ghost es = exprs_view(tuples@);
        let mut result: Vec<MigrationDependency> = Vec::new();
        let mut i: usize = 0;
        while i < tuples.len()
            invariant
                i <= tuples.len(),
                es == exprs_view(tuples@),
                result@.map_values(|d: MigrationDependency| d@) == dependencies_from_elements(es.take(i as int)),
            decreases tuples.len() - i,
        {
            proof {
                assert(es.take(i + 1).drop_last() =~= es.take(i as int));
                assert(es.take(i + 1).last() == tuples@[i as int]@);
            }
            let ghost before = result@.map_values(|d: MigrationDependency| d@);
            if let Ok(dependency) = MigrationDependency::try_from_expr(&tuples[i]) {
                result.push(dependency);
                assert(result@.map_values(|d: MigrationDependency| d@) =~= before.push(dependency@));
            }
            i = i + 1;
        }
        assert(es.take(tuples.len() as int) =~= es);
        result
    }
}

/// Whether `s` is the text `name`.
fn is_named(s: &str, name: &str) -> (r: bool)
    ensures
        r == (s@ == name@),
{
    let n = s.unicode_len();
    if n != name.unicode_len() {
        return false;
    }
    let mut i: usize = 0;
    while i < n
        invariant
            n == s@.len(),
            n == name@.len(),
            i <= n,
            forall|k: int| 0 <= k < i ==> s@[k] == name@[k],
        decreases n - i,
    {
        if s.get_char(i) != name.get_char(i) {
            return false;
        }
        i = i + 1;
    }
    assert(s@ =~= name@);
    true
}

impl MigrationFileName {
    /// The migration file name in the second element of a tuple.
    pub fn try_from_expr(expr: &PyExpr) -> (r: Result<MigrationFileName, String>)
        ensures
            match r {
                Ok(f) => file_name_from_element(expr@) == Ok::<Seq<char>, Seq<char>>(f@),
                Err(e) => file_name_from_element(expr@) == Err::<Seq<char>, Seq<char>>(e@),
            },
    {
        match expr {
            PyExpr::Tuple(elts) => {
                if elts.len() != 2 {
                    return Err(String::from_str("Tuple must have exactly 2 elements"));
                }
                assert(atoms_view(elts@)[1] == elts@[1]@);
                match &elts[1] {
                    PyAtom::Str(s) => MigrationFileName::try_from(s.clone()),
                    PyAtom::NonStrConstant => Err(String::from_str("Second tuple element is not a string constant")),
                    PyAtom::Other => Err(String::from_str("Second tuple element is not a constant")),
                }
            },
            PyExpr::Other => Err(String::from_str("Expression is not a tuple")),
        }
    }
}

impl MigrationDependency {
    /// The dependency that a tuple names: its app, then its migration.
    pub fn try_from_expr(expr: &PyExpr) -> (r: Result<MigrationDependency, String>)
        ensures
            match r {
                Ok(d) => dependency_from_element(expr@) == Ok::<(Seq<char>, Seq<char>), Seq<char>>(d@),
                Err(e) => dependency_from_element(expr@) == Err::<(Seq<char>, Seq<char>), Seq<char>>(e@),
            },
    {
        match expr {
            PyExpr::Tuple(elts) => {
                if elts.len() != 2 {
                    return Err(String::from_str("Tuple must have exactly 2 elements"));
                }
                assert(atoms_view(elts@)[0] == elts@[0]@);
                let app = match &elts[0] {
                    PyAtom::Str(s) => s.clone(),
                    PyAtom::NonStrConstant => {
                        return Err(String::from_str("First tuple element is not a string constant"));
                    },
                    PyAtom::Other => {
                        return Err(String::from_str("First tuple element is not a constant"));
                    },
                };
                let migration_file = MigrationFileName::try_from_expr(expr)?;
                Ok(MigrationDependency { app, migration_file })
            },
            PyExpr::Other => Err(String::from_str("Expression is not a tuple")),
        }
    }
}

} // verus!
