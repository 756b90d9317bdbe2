//! Migration file names, `max_migration.txt` and its merge conflicts.

use vstd::prelude::*;
use vstd::string::*;
use crate::text::{chars_of, contains_chars, contains_seq, is_white_space, lemma_leading_white_space_unique, lemma_trailing_white_space_unique, split_first, split_first_piece, split_second, split_second_piece, trim_seq, trim_text};
use crate::paths::{texts, file_name, grandparent_name, join, join_path, last_slash, trim_trailing_slashes, file_name_of, grandparent_name_of, set_py_extension, with_py_extension};
use crate::migration::change::{MigrationDependencyChange, MigrationFileNameChange};
use crate::migration::parser::{fits_parser, module_dependencies, module_view, python_module, MigrationParser};


verus! {

/// Name of the directory that holds an app's migrations.
pub const MIGRATIONS: &'static str = "migrations";

/// Name of the file that records an app's latest migration.
pub const MAX_MIGRATION_TXT: &'static str = "max_migration.txt";

/// An ASCII decimal digit.
pub open spec fn is_ascii_digit(c: char) -> bool {
    '0' <= c <= '9'
}

/// The value of an ASCII decimal digit.
pub open spec fn digit_value(c: char) -> int {
    c as int - '0' as int
}

/// The digit character for `d < 10`.
pub open spec fn digit_char(d: int) -> char {
    (d + '0' as int) as char
}

/// A valid migration file name: four ASCII digits, an underscore (the first
/// one in the name) and at least one more character.
pub open spec fn is_valid_file_name(s: Seq<char>) -> bool {
    &&& s.len() > 5
    &&& s[4] == '_'
    &&& forall|i: int| 0 <= i < 4 ==> is_ascii_digit(#[trigger] s[i])
}

/// `s` ends with `.py`.
pub open spec fn ends_with_py(s: Seq<char>) -> bool {
    &&& s.len() >= 3
    &&& s[s.len() - 3] == '.'
    &&& s[s.len() - 2] == 'p'
    &&& s[s.len() - 1] == 'y'
}

/// `s` without a trailing `.py`.
pub open spec fn strip_py(s: Seq<char>) -> Seq<char> {
    if ends_with_py(s) {
        s.take(s.len() - 3)
    } else {
        s
    }
}

/// The message of a refused migration file name.
pub open spec fn invalid_name_message(s: Seq<char>) -> Seq<char> {
    "Invalid migration file name: "@ + s
}

/// What parsing `s` as a migration file name gives: the name without a
/// trailing `.py`, or the error message.
pub open spec fn parse_file_name(s: Seq<char>) -> Result<Seq<char>, Seq<char>> {
    if is_valid_file_name(s) {
        Ok(strip_py(s))
    } else {
        Err(invalid_name_message(s))
    }
}

/// The shape that every parsed migration file name keeps: four digits and
/// an underscore.
pub open spec fn is_well_formed_name(s: Seq<char>) -> bool {
    &&& s.len() >= 5
    &&& s[4] == '_'
    &&& forall|i: int| 0 <= i < 4 ==> is_ascii_digit(#[trigger] s[i])
}

/// The number that the four leading digits of `s` spell.
pub open spec fn name_number(s: Seq<char>) -> int {
    digit_value(s[0]) * 1000 + digit_value(s[1]) * 100 + digit_value(s[2]) * 10 + digit_value(
        s[3],
    )
}

/// The descriptive part of a migration file name: what follows the first
/// underscore.
pub open spec fn name_suffix(s: Seq<char>) -> Seq<char> {
    s.skip(5)
}

/// `n < 10000` written with four digits, zero-padded.
pub open spec fn four_digits(n: int) -> Seq<char> {
    seq![digit_char(n / 1000), digit_char((n / 100) % 10), digit_char((n / 10) % 10), digit_char(n % 10)]
}

/// The file name made of a number and a descriptive name.
pub open spec fn numbered_name(n: int, name: Seq<char>) -> Seq<char> {
    strip_py(four_digits(n) + seq!['_'] + name)
}

/// Stripping `.py` from a valid name keeps it well formed.
pub proof fn lemma_parsed_name_well_formed(s: Seq<char>)
    requires
        is_valid_file_name(s),
    ensures
        is_well_formed_name(strip_py(s)),
        strip_py(s).take(5) == s.take(5),
{
    if ends_with_py(s) {
        assert(s.len() >= 8) by {
            if s.len() == 6 {
                assert(is_ascii_digit(s[3]));
            } else if s.len() == 7 {
                assert(s[4] == '_');
            }
        }
        let t = s.take(s.len() - 3);
        assert forall|i: int| 0 <= i < 4 implies is_ascii_digit(#[trigger] t[i]) by {
            assert(t[i] == s[i]);
        }
        assert(t.take(5) =~= s.take(5));
    }
}

/// Four digits spell the number they were written for.
pub proof fn lemma_four_digits_number(n: int)
    requires
        0 <= n < 10000,
    ensures
        forall|s: Seq<char>| #![auto] s.len() >= 4 && s.take(4) == four_digits(n) ==> name_number(s) == n && is_ascii_digit(s[0]) && is_ascii_digit(s[1]) && is_ascii_digit(s[2]) && is_ascii_digit(s[3]),
{
    let a = n / 1000;
    let b = (n / 100) % 10;
    let c = (n / 10) % 10;
    let d = n % 10;
    assert(a * 1000 + b * 100 + c * 10 + d == n) by (nonlinear_arith)
        requires
            0 <= n < 10000,
            a == n / 1000,
            b == (n / 100) % 10,
            c == (n / 10) % 10,
            d == n % 10,
    ;
    assert(0 <= a < 10 && 0 <= b < 10 && 0 <= c < 10 && 0 <= d < 10);
    assert forall|s: Seq<char>| #![auto] s.len() >= 4 && s.take(4) == four_digits(n) implies name_number(s) == n && is_ascii_digit(s[0]) && is_ascii_digit(s[1]) && is_ascii_digit(s[2]) && is_ascii_digit(s[3]) by {
        assert(s[0] == s.take(4)[0]);
        assert(s[1] == s.take(4)[1]);
        assert(s[2] == s.take(4)[2]);
        assert(s[3] == s.take(4)[3]);
    }
}


/// A name built from a number below 10000 and a non-empty descriptive
/// part is well formed and gives the number back, and the descriptive
/// part too where it does not end with `.py`.
pub proof fn lemma_numbered_name_round_trip(n: int, s: Seq<char>)
    requires
        0 <= n < 10000,
        s.len() > 0,
    ensures
        is_well_formed_name(numbered_name(n, s)),
        name_number(numbered_name(n, s)) == n,
        !ends_with_py(s) ==> name_suffix(numbered_name(n, s)) == s,
{
    let text = four_digits(n) + seq!['_'] + s;
    lemma_four_digits_number(n);
    assert(text.take(4) =~= four_digits(n));
    assert(is_valid_file_name(text));
    lemma_parsed_name_well_formed(text);
    let t = numbered_name(n, s);
    assert(t.take(4) =~= t.take(5).take(4));
    assert(text.take(4) =~= text.take(5).take(4));
    if !ends_with_py(s) {
        if s.len() >= 3 {
            assert(text[text.len() - 1] == s[s.len() - 1]);
            assert(text[text.len() - 2] == s[s.len() - 2]);
            assert(text[text.len() - 3] == s[s.len() - 3]);
        } else {
            assert(text[text.len() - 3] != '.');
        }
        assert(!ends_with_py(text));
        assert(name_suffix(t) =~= s);
    }
}

/// Parsing a parsed name with a descriptive part gives it back, where it
/// does not end with `.py` any more.
pub proof fn lemma_parse_file_name_idempotent(s: Seq<char>)
    requires
        parse_file_name(s) is Ok,
        parse_file_name(s)->Ok_0.len() > 5,
        !ends_with_py(parse_file_name(s)->Ok_0),
    ensures
        parse_file_name(parse_file_name(s)->Ok_0) == parse_file_name(s),
{
    lemma_parsed_name_well_formed(s);
    let t = parse_file_name(s)->Ok_0;
    assert(t[4] == t.take(5)[4]);
    assert forall|i: int| 0 <= i < 4 implies is_ascii_digit(#[trigger] t[i]) by {
        assert(t[i] == t.take(5)[i]);
        assert(s[i] == s.take(5)[i]);
    }
}

/// What `max_migration.txt` is written with for a new latest migration
/// reads back as that migration: the name must be one that parsing gives
/// back, end in a character that is not white space and hold no conflict
/// marker.
pub proof fn lemma_max_migration_read_back(name: Seq<char>)
    requires
        parse_file_name(name) == Ok::<Seq<char>, Seq<char>>(name),
        !is_white_space(name.last()),
        !has_conflict_markers(name),
    ensures
        max_migration_view(trim_seq(max_migration_content(name))) == MaxMigrationView::Found(name, None),
{
    reveal_strlit("\n");
    let t = max_migration_content(name);
    assert(t =~= name.push('\n'));
    assert(is_ascii_digit(name[0]));
    assert(t[0] == name[0]);
    lemma_leading_white_space_unique(t, 0);
    assert(t.skip(0) =~= t);
    assert(t[t.len() - 2] == name.last());
    lemma_trailing_white_space_unique(t, 1);
    assert(trim_seq(t) =~= name);
}

/// A migration file name, such as `0001_initial`, kept without `.py`.
#[derive(Debug, Clone, PartialEq, Eq)]
pub struct MigrationFileName(pub String);

impl View for MigrationFileName {
    type V = Seq<char>;

    open spec fn view(&self) -> Seq<char> {
        self.0@
    }
}

/// The digit characters `0` to `9`.
fn digit_text(d: u32) -> (r: &'static str)
    requires
        d < 10,
    ensures
        r@ == seq![digit_char(d as int)],
{
    let digits = "0123456789";
    proof {
        reveal_strlit("0123456789");
    }
    let r = digits.substring_char(d as usize, d as usize + 1);
    assert(r@ =~= seq![digit_char(d as int)]);
    r
}

/// `number` written with four digits, zero-padded.
pub fn number_prefix(number: u64) -> (r: String)
    requires
        number < 10000,
    ensures
        r@ == four_digits(number as int),
{
    let n = number as u32;
    let mut text = String::from_str(digit_text(n / 1000));
    text.append(digit_text((n / 100) % 10));
    text.append(digit_text((n / 10) % 10));
    text.append(digit_text(n % 10));
    assert(text@ =~= four_digits(number as int));
    text
}

impl MigrationFileName {
    /// Parses a migration file name: it must start with exactly four digits
    /// and an underscore followed by more text; a trailing `.py` is dropped.
    pub fn try_from(name: String) -> (r: Result<MigrationFileName, String>)
        ensures
            match r {
                Ok(f) => parse_file_name(name@) == Ok::<Seq<char>, Seq<char>>(f@),
                Err(e) => parse_file_name(name@) == Err::<Seq<char>, Seq<char>>(e@),
            },
    {
        let s = name.as_str();
        let n = s.unicode_len();
        let mut valid = n > 5 && s.get_char(4) == '_';
        let mut i: usize = 0;
        while valid && i < 4
            invariant
                s@ == name@,
                n == name@.len(),
                i <= 4,
                valid ==> n > 5,
                valid ==> forall|k: int| 0 <= k < i ==> is_ascii_digit(#[trigger] name@[k]),
                valid ==> name@[4] == '_',
                !valid ==> !is_valid_file_name(name@),
            decreases 4 - i,
        {
            let c = s.get_char(i);
            if !('0' <= c && c <= '9') {
                valid = false;
            }
            i = i + 1;
        }
        if !valid {
            let mut msg = String::from_str("Invalid migration file name: ");
            msg.append(s);
            return Err(msg);
        }
        assert(is_valid_file_name(name@));
        if s.get_char(n - 3) == '.' && s.get_char(n - 2) == 'p' && s.get_char(n - 1) == 'y' {
            Ok(MigrationFileName(String::from_str(s.substring_char(0, n - 3))))
        } else {
            Ok(MigrationFileName(name))
        }
    }

    /// The file name for `number` (written with four digits) and `name`.
    pub fn from_number_and_name(number: u32, name: &str) -> (r: MigrationFileName)
        requires
            number < 10000,
            name@.len() > 0,
        ensures
            r@ == numbered_name(number as int, name@),
            is_well_formed_name(r@),
    {
        let mut text = number_prefix(number as u64);
        text.append("_");
        text.append(name);
        proof {
            reveal_strlit("_");
            assert(text@ =~= four_digits(number as int) + seq!['_'] + name@);
            assert forall|i: int| 0 <= i < 4 implies is_ascii_digit(#[trigger] text@[i]) by {
                assert(0 <= number / 1000 < 10);
            }
            lemma_parsed_name_well_formed(text@);
        }
        match MigrationFileName::try_from(text) {
            Ok(f) => f,
            Err(_) => {
                assert(false);
                MigrationFileName(String::new())
            },
        }
    }

    /// The descriptive part of the name: what follows the first underscore.
    pub fn name(&self) -> (r: String)
        requires
            is_well_formed_name(self@),
        ensures
            r@ == name_suffix(self@),
    {
        let s = self.0.as_str();
        let n = s.unicode_len();
        String::from_str(s.substring_char(5, n))
    }

    /// The number that the four leading digits spell.
    pub fn number(&self) -> (r: u32)
        requires
            is_well_formed_name(self@),
        ensures
            r as int == name_number(self@),
            r < 10000,
    {
        let s = self.0.as_str();
        let d0 = s.get_char(0) as u32 - '0' as u32;
        let d1 = s.get_char(1) as u32 - '0' as u32;
        let d2 = s.get_char(2) as u32 - '0' as u32;
        let d3 = s.get_char(3) as u32 - '0' as u32;
        assert(is_ascii_digit(self@[0]) && is_ascii_digit(self@[1]) && is_ascii_digit(self@[2])
            && is_ascii_digit(self@[3]));
        d0 * 1000 + d1 * 100 + d2 * 10 + d3
    }

    /// The same name, as a new value.
    pub fn duplicate(&self) -> (r: MigrationFileName)
        ensures
            r == *self,
    {
        MigrationFileName(self.0.clone())
    }

    /// Whether two names are the same text.
    pub fn same_as(&self, other: &MigrationFileName) -> (r: bool)
        ensures
            r == (self@ == other@),
    {
        self.0 == other.0
    }

    /// The name as text.
    pub fn to_string(&self) -> (r: String)
        ensures
            r@ == self@,
    {
        self.0.clone()
    }
}


/// The marker that opens the HEAD side of a merge conflict.
pub open spec fn head_marker() -> Seq<char> {
    "<<<<<<< HEAD"@
}

/// The marker between the two sides of a merge conflict.
pub open spec fn separator_marker() -> Seq<char> {
    "======="@
}

/// The marker that closes the incoming side of a merge conflict.
pub open spec fn incoming_marker() -> Seq<char> {
    ">>>>>>> "@
}

/// All three conflict markers occur in `c`.
pub open spec fn has_conflict_markers(c: Seq<char>) -> bool {
    &&& contains_seq(c, head_marker())
    &&& contains_seq(c, separator_marker())
    &&& contains_seq(c, incoming_marker())
}

/// The HEAD side of a conflict: after the first HEAD marker, up to the
/// separator, trimmed.
pub open spec fn conflict_head_text(c: Seq<char>) -> Seq<char> {
    trim_seq(split_first(split_second(c, head_marker()), separator_marker()))
}

/// The incoming side of a conflict: after the first separator, up to the
/// closing marker, trimmed.
pub open spec fn conflict_incoming_text(c: Seq<char>) -> Seq<char> {
    trim_seq(split_first(split_second(c, separator_marker()), incoming_marker()))
}

/// What reading a merge conflict out of `c` gives: the HEAD and the
/// incoming file names, or the error message.
pub open spec fn parse_merge_conflict(c: Seq<char>) -> Result<(Seq<char>, Seq<char>), Seq<char>> {
    if has_conflict_markers(c) {
        match parse_file_name(conflict_head_text(c)) {
            Err(e) => Err(e),
            Ok(h) => match parse_file_name(conflict_incoming_text(c)) {
                Err(e) => Err(e),
                Ok(i) => Ok((h, i)),
            },
        }
    } else {
        Err("No merge conflict found in "@ + c)
    }
}

/// The two sides of a merge conflict in `max_migration.txt`.
#[derive(Debug, Clone)]
pub struct MergeConflict {
    pub head: MigrationFileName,
    pub incoming_change: MigrationFileName,
}

impl MergeConflict {
    /// Reads one merge conflict out of `content`: the file name between the
    /// HEAD marker and the separator, and the one between the separator and
    /// the closing marker.
    pub fn try_from(content: String) -> (r: Result<MergeConflict, String>)
        ensures
            match r {
                Ok(m) => parse_merge_conflict(content@) == Ok::<(Seq<char>, Seq<char>), Seq<char>>(
                    (m.head@, m.incoming_change@),
                ),
                Err(e) => parse_merge_conflict(content@) == Err::<(Seq<char>, Seq<char>), Seq<char>>(
                    e@,
                ),
            },
    {
        let c = content.as_str();
        let cc = chars_of(c);
        let head_marker = "<<<<<<< HEAD";
        let separator = "=======";
        let incoming_marker = ">>>>>>> ";
        let hm = chars_of(head_marker);
        let sm = chars_of(separator);
        let im = chars_of(incoming_marker);
        if contains_chars(&cc, &hm) && contains_chars(&cc, &sm) && contains_chars(&cc, &im) {
            let head_side = split_second_piece(c, head_marker);
            let head_text = split_first_piece(head_side.as_str(), separator);
            let head = MigrationFileName::try_from(trim_text(head_text.as_str()))?;
            let incoming_side = split_second_piece(c, separator);
            let incoming_text = split_first_piece(incoming_side.as_str(), incoming_marker);
            let incoming_change = MigrationFileName::try_from(trim_text(incoming_text.as_str()))?;
            Ok(MergeConflict { head, incoming_change })
        } else {
            let mut msg = String::from_str("No merge conflict found in ");
            msg.append(c);
            Err(msg)
        }
    }

    /// The same conflict, as a new value.
    pub fn duplicate(&self) -> (r: MergeConflict)
        ensures
            r == *self,
    {
        MergeConflict { head: self.head.duplicate(), incoming_change: self.incoming_change.duplicate() }
    }
}

/// The content of `max_migration.txt` and, where it is to change, its new
/// content.
#[derive(Debug, Clone)]
pub struct MaxMigrationFile {
    pub current_content: MigrationFileName,
    pub new_content: Option<MigrationFileName>,
}

impl From<MigrationFileName> for MaxMigrationFile {
    fn from(value: MigrationFileName) -> (r: MaxMigrationFile) {
        MaxMigrationFile { current_content: value, new_content: None }
    }
}

impl vstd::std_specs::convert::FromSpecImpl<MigrationFileName> for MaxMigrationFile {
    open spec fn obeys_from_spec() -> bool {
        true
    }

    open spec fn from_spec(v: MigrationFileName) -> MaxMigrationFile {
        MaxMigrationFile { current_content: v, new_content: None }
    }
}

/// The path of `max_migration.txt` in the directory `dir`.
pub open spec fn max_migration_path(dir: Seq<char>) -> Seq<char> {
    join_path(dir, "max_migration.txt"@)
}

/// What `max_migration.txt` holds for the latest migration `name`.
pub open spec fn max_migration_content(name: Seq<char>) -> Seq<char> {
    name + "\n"@
}

/// `r` is what a write that answered `w` turns into, with its error
/// prefixed by `prefix`.
pub open spec fn prefixed_outcome(
    w: Result<(), String>,
    r: Result<(), String>,
    prefix: Seq<char>,
) -> bool {
    match w {
        Ok(_) => r is Ok,
        Err(e) => r matches Err(e2) && e2@ == prefix + e@,
    }
}

/// `write` was called to write `content` to the file `path`, and `r` is
/// what its answer turns into, an error prefixed.
pub open spec fn max_write_done<F: Fn(String, String) -> Result<(), String>>(
    path: Seq<char>,
    content: Seq<char>,
    r: Result<(), String>,
    write: F,
) -> bool {
    exists|p: String, c: String, w: Result<(), String>|
        {
            &&& p@ == path
            &&& c@ == content
            &&& call_ensures(write, (p, c), w)
            &&& prefixed_outcome(w, r, "Failed to write max migration file: "@)
        }
}

impl MaxMigrationFile {
    /// Writes the new content, where there is one, to `max_migration.txt` in
    /// `migrations_dir` through `write`, which is given the path and the
    /// text; an error of the write is reported with a prefix.
    pub fn apply_change<F: Fn(String, String) -> Result<(), String>>(
        &self,
        migrations_dir: &str,
        write: &F,
    ) -> (r: Result<(), String>)
        requires
            forall|p: String, c: String| call_requires(*write, (p, c)),
        ensures
            self.new_content is None ==> r is Ok,
            self.new_content matches Some(n) ==> max_write_done(
                max_migration_path(migrations_dir@),
                max_migration_content(n@),
                r,
                *write,
            ),
    {
        match &self.new_content {
            None => Ok(()),
            Some(new_content) => {
                let path = join(migrations_dir, MAX_MIGRATION_TXT);
                let mut content = new_content.to_string();
                content.append("\n");
                let w = write(path, content);
                match w {
                    Ok(()) => Ok(()),
                    Err(e) => {
                        let mut msg = String::from_str("Failed to write max migration file: ");
                        msg.append(e.as_str());
                        Err(msg)
                    },
                }
            },
        }
    }

    /// The same value, as a new one.
    pub fn duplicate(&self) -> (r: MaxMigrationFile)
        ensures
            r == *self,
    {
        MaxMigrationFile {
            current_content: self.current_content.duplicate(),
            new_content: match &self.new_content {
                Some(n) => Some(n.duplicate()),
                None => None,
            },
        }
    }
}

/// What `max_migration.txt` was found to hold.
#[derive(Debug)]
pub enum MaxMigrationResult {
    Found(MaxMigrationFile),
    Conflict(MergeConflict),
    NotFound,
}

/// What `max_migration.txt` holds, as text: the latest migration and its
/// planned replacement, the two sides of a merge conflict, or nothing
/// usable.
pub enum MaxMigrationView {
    Found(Seq<char>, Option<Seq<char>>),
    Conflict(Seq<char>, Seq<char>),
    NotFound,
}

impl View for MaxMigrationResult {
    type V = MaxMigrationView;

    open spec fn view(&self) -> MaxMigrationView {
        match self {
            MaxMigrationResult::Found(f) => MaxMigrationView::Found(
                f.current_content@,
                match f.new_content {
                    Some(n) => Some(n@),
                    None => None,
                },
            ),
            MaxMigrationResult::Conflict(c) => MaxMigrationView::Conflict(c.head@, c.incoming_change@),
            MaxMigrationResult::NotFound => MaxMigrationView::NotFound,
        }
    }
}

/// How the trimmed content `t` of `max_migration.txt` is read: a merge
/// conflict first, then a single file name; an empty or unreadable
/// content gives nothing.
pub open spec fn max_migration_view(t: Seq<char>) -> MaxMigrationView {
    if t.len() == 0 {
        MaxMigrationView::NotFound
    } else {
        match parse_merge_conflict(t) {
            Ok(c) => MaxMigrationView::Conflict(c.0, c.1),
            Err(_) => match parse_file_name(t) {
                Ok(n) => MaxMigrationView::Found(n, None),
                Err(_) => MaxMigrationView::NotFound,
            },
        }
    }
}

impl MaxMigrationResult {
    /// Reads the content of `max_migration.txt`.
    pub fn from_content(content: &str) -> (r: MaxMigrationResult)
        ensures
            r@ == max_migration_view(trim_seq(content@)),
    {
        let t = trim_text(content);
        if t.as_str().unicode_len() == 0 {
            return MaxMigrationResult::NotFound;
        }
        match MergeConflict::try_from(t.clone()) {
            Ok(c) => MaxMigrationResult::Conflict(c),
            Err(_) => match MigrationFileName::try_from(t) {
                Ok(f) => MaxMigrationResult::Found(MaxMigrationFile::from(f)),
                Err(_) => MaxMigrationResult::NotFound,
            },
        }
    }
}


/// A dependency of a migration on a migration of some app.
#[derive(Debug, Clone, PartialEq, Eq)]
pub struct MigrationDependency {
    pub app: String,
    pub migration_file: MigrationFileName,
}

impl View for MigrationDependency {
    type V = (Seq<char>, Seq<char>);

    open spec fn view(&self) -> (Seq<char>, Seq<char>) {
        (self.app@, self.migration_file@)
    }
}

/// The views of a list of dependencies.
pub open spec fn dependencies_view(v: Seq<MigrationDependency>) -> Seq<(Seq<char>, Seq<char>)> {
    v.map_values(|d: MigrationDependency| d@)
}

/// A dependency written as a Python tuple: `('app', 'name')`.
pub open spec fn dependency_text(d: (Seq<char>, Seq<char>)) -> Seq<char> {
    "('"@ + d.0 + "', '"@ + d.1 + "')"@
}

impl MigrationDependency {
    /// The dependency written as a Python tuple.
    pub fn to_string(&self) -> (r: String)
        ensures
            r@ == dependency_text(self@),
    {
        let mut r = String::from_str("('");
        r.append(self.app.as_str());
        r.append("', '");
        r.append(self.migration_file.0.as_str());
        r.append("')");
        r
    }

    /// The same dependency, as a new value.
    pub fn duplicate(&self) -> (r: MigrationDependency)
        ensures
            r == *self,
    {
        MigrationDependency { app: self.app.clone(), migration_file: self.migration_file.duplicate() }
    }
}

/// A copy of a list of dependencies.
pub fn duplicate_dependencies(v: &Vec<MigrationDependency>) -> (r: Vec<MigrationDependency>)
    ensures
        r@ == v@,
{
    let mut r: Vec<MigrationDependency> = Vec::new();
    let mut i: usize = 0;
    while i < v.len()
        invariant
            i <= v.len(),
            r@ == v@.take(i as int),
        decreases v.len() - i,
    {
        r.push(v[i].duplicate());
        i = i + 1;
        assert(r@ =~= v@.take(i as int));
    }
    assert(r@ =~= v@);
    r
}


/// A Python file of a migrations directory: its path and its text.
#[derive(Debug, Clone)]
pub struct SourceFile {
    pub path: String,
    pub content: String,
}

impl View for SourceFile {
    type V = (Seq<char>, Seq<char>);

    open spec fn view(&self) -> (Seq<char>, Seq<char>) {
        (self.path@, self.content@)
    }
}

/// The paths and texts of a list of files.
pub open spec fn sources_view(v: Seq<SourceFile>) -> Seq<(Seq<char>, Seq<char>)> {
    v.map_values(|f: SourceFile| f@)
}

/// The text of the first file in `files` at `path`.
pub open spec fn source_of(files: Seq<(Seq<char>, Seq<char>)>, path: Seq<char>) -> Option<Seq<char>>
    decreases files.len(),
{
    if files.len() == 0 {
        None
    } else if files[0].0 == path {
        Some(files[0].1)
    } else {
        source_of(files.drop_first(), path)
    }
}

/// Every text that `files` gives for a path fits the parser.
pub open spec fn sources_fit(files: Seq<(Seq<char>, Seq<char>)>) -> bool {
    forall|p: Seq<char>| #[trigger] source_of(files, p) matches Some(c) ==> fits_parser(c)
}

/// The text of the first file of `files` at `path`.
pub fn find_source<'a>(files: &'a Vec<SourceFile>, path: &str) -> (r: Option<&'a String>)
    ensures
        match r {
            Some(t) => source_of(sources_view(files@), path@) == Some(t@),
            None => source_of(sources_view(files@), path@) is None,
        },
{
    let ghost v = sources_view(files@);
    let mut i: usize = 0;
    assert(v.skip(0) =~= v);
    while i < files.len()
        invariant
            i <= files.len(),
            v == sources_view(files@),
            source_of(v, path@) == source_of(v.skip(i as int), path@),
        decreases files.len() - i,
    {
        proof {
            assert(v.skip(i as int).drop_first() =~= v.skip(i + 1));
            assert(v.skip(i as int)[0] == files@[i as int]@);
        }
        if files[i].path == String::from_str(path) {
            return Some(&files[i].content);
        }
        i = i + 1;
    }
    None
}

/// What is known of a project's files: its directories, in the order in
/// which a walk from the project's root meets them, and the files of its
/// migrations directories with their text.
#[derive(Debug, Clone)]
pub struct FileTree {
    pub directories: Vec<String>,
    pub files: Vec<SourceFile>,
}

/// What a migration is.
pub struct MigrationView {
    pub file_name: Seq<char>,
    pub file_path: Seq<char>,
    pub app_name: Seq<char>,
    pub dependencies: Seq<(Seq<char>, Seq<char>)>,
    pub from_rebased_branch: bool,
    pub name_change: Option<(Seq<char>, Seq<char>)>,
    pub dependency_change: Option<(Seq<(Seq<char>, Seq<char>)>, Seq<(Seq<char>, Seq<char>)>)>,
}

/// A migration of an app, with the changes planned for it.
#[derive(Debug, Clone)]
pub struct Migration {
    pub file_name: MigrationFileName,
    pub file_path: String,
    pub app_name: String,
    pub dependencies: Vec<MigrationDependency>,
    pub from_rebased_branch: bool,
    pub name_change: Option<MigrationFileNameChange>,
    pub dependency_change: Option<MigrationDependencyChange>,
}

impl View for Migration {
    type V = MigrationView;

    open spec fn view(&self) -> MigrationView {
        MigrationView {
            file_name: self.file_name@,
            file_path: self.file_path@,
            app_name: self.app_name@,
            dependencies: dependencies_view(self.dependencies@),
            from_rebased_branch: self.from_rebased_branch,
            name_change: match &self.name_change {
                Some(c) => Some((c.old_name@, c.new_name@)),
                None => None,
            },
            dependency_change: match &self.dependency_change {
                Some(c) => Some((dependencies_view(c.old_dependencies@), dependencies_view(c.new_dependencies@))),
                None => None,
            },
        }
    }
}

/// The views of a list of migrations.
pub open spec fn migrations_view(v: Seq<Migration>) -> Seq<MigrationView> {
    v.map_values(|m: Migration| m@)
}

/// The message for a migration file that the given files do not hold.
pub open spec fn missing_file_message(path: Seq<char>) -> Seq<char> {
    "Failed to read file "@ + path
}

/// What loading the migration file `path` out of `files` gives: the app
/// is the directory two levels up, the name is the file's name, and the
/// dependencies are those listed in its Python source.
pub open spec fn loaded_migration(path: Seq<char>, files: Seq<(Seq<char>, Seq<char>)>) -> Result<MigrationView, Seq<char>> {
    match grandparent_name_of(path) {
        None => Err("Failed to extract app name"@),
        Some(app) => match file_name_of(path) {
            None => Err("Failed to extract file name"@),
            Some(f) => match parse_file_name(f) {
                Err(e) => Err(e),
                Ok(name) => match source_of(files, path) {
                    None => Err(missing_file_message(path)),
                    Some(src) => match python_module(src, path) {
                        Err(x) => Err("Failed to parse python statements: "@ + x),
                        Ok(m) => Ok(
                            MigrationView {
                                file_name: name,
                                file_path: path,
                                app_name: app,
                                dependencies: module_dependencies(m),
                                from_rebased_branch: false,
                                name_change: None,
                                dependency_change: None,
                            },
                        ),
                    },
                },
            },
        },
    }
}

/// The number of dependencies in `deps` on migrations of `app`.
pub open spec fn same_app_count(deps: Seq<(Seq<char>, Seq<char>)>, app: Seq<char>) -> nat
    decreases deps.len(),
{
    if deps.len() == 0 {
        0
    } else {
        same_app_count(deps.drop_last(), app) + if deps.last().0 == app {
            1nat
        } else {
            0nat
        }
    }
}

/// The message for a merge migration met among the rebased migrations.
pub open spec fn merge_migration_message(name: Seq<char>) -> Seq<char> {
    "Merge migration detected in rebased migration: "@ + name
        + ". Currently, merge migrations cannot be resolved properly when they are not part of the HEAD branch. In fact, you can use this tool to avoid merge migrations by rebasing your feature branch on the latest HEAD migration."@
}

/// The directory that holds `p`: its text up to the last slash (slashes
/// at the end of `p` left aside), `/` for a file at the root, and the empty
/// path for a bare name.
pub open spec fn parent_text(p: Seq<char>) -> Seq<char> {
    let t = trim_trailing_slashes(p);
    let i = last_slash(t);
    if i < 0 {
        Seq::empty()
    } else if i == 0 {
        seq!['/']
    } else {
        t.take(i)
    }
}

/// The directory that holds `p`.
pub fn parent_path(p: &str) -> (r: String)
    ensures
        r@ == parent_text(p@),
{
    let n = p.unicode_len();
    let mut e = n;
    while e > 0 && p.get_char(e - 1) == '/'
        invariant
            n == p@.len(),
            e <= n,
            forall|k: int| e <= k < n ==> p@[k] == '/',
        decreases e,
    {
        e = e - 1;
    }
    let ghost t = p@.take(e as int);
    proof {
        crate::paths::lemma_trim_trailing_slashes(p@, e as int);
    }
    let mut s = e;
    while s > 0 && p.get_char(s - 1) != '/'
        invariant
            n == p@.len(),
            s <= e <= n,
            t == p@.take(e as int),
            forall|k: int| s <= k < e ==> p@[k] != '/',
        decreases s,
    {
        s = s - 1;
    }
    proof {
        if s > 0 {
            assert(t[s - 1] == '/');
        }
        assert forall|k: int| s - 1 < k < t.len() implies t[k] != '/' by {
            assert(t[k] == p@[k]);
        }
        crate::paths::lemma_last_slash_unique(t, s - 1);
    }
    if s == 0 {
        String::new()
    } else if s == 1 {
        let r = String::from_str("/");
        proof {
            reveal_strlit("/");
            assert(r@ =~= seq!['/']);
        }
        r
    } else {
        let r = String::from_str(p.substring_char(0, s - 1));
        assert(r@ =~= t.take(s - 1));
        r
    }
}

impl Migration {
    /// Loads the migration file `value` out of `files`: the app is the
    /// directory two levels up, the name the file's name, and the
    /// dependencies those that its Python source lists.
    pub fn try_from(value: &str, files: &Vec<SourceFile>) -> (r: Result<Migration, String>)
        requires
            sources_fit(sources_view(files@)),
        ensures
            match r {
                Ok(m) => loaded_migration(value@, sources_view(files@)) == Ok::<MigrationView, Seq<char>>(m@),
                Err(e) => loaded_migration(value@, sources_view(files@)) == Err::<MigrationView, Seq<char>>(e@),
            },
    {
        let app_name = match grandparent_name(value) {
            Some(a) => a,
            None => {
                return Err(String::from_str("Failed to extract app name"));
            },
        };
        let name = match file_name(value) {
            Some(f) => f,
            None => {
                return Err(String::from_str("Failed to extract file name"));
            },
        };
        let file_name = MigrationFileName::try_from(name)?;
        let source = match find_source(files, value) {
            Some(t) => t,
            None => {
                let mut msg = String::from_str("Failed to read file ");
                msg.append(value);
                return Err(msg);
            },
        };
        assert(fits_parser(source@)) by {
            assert(source_of(sources_view(files@), value@) == Some(source@));
        }
        let parser = MigrationParser::new(value, source.as_str())?;
        let dependencies = parser.get_dependencies();
        let r = Migration {
            file_name,
            file_path: String::from_str(value),
            app_name,
            dependencies,
            from_rebased_branch: false,
            name_change: None,
            dependency_change: None,
        };
        assert(r@.dependencies =~= module_dependencies(module_view(parser.module@)));
        Ok(r)
    }

    /// The path of the migration's file after its rename, where it is to be
    /// renamed.
    pub fn new_full_path(&self, directory: &str) -> (r: Option<String>)
        ensures
            match (r, self.name_change) {
                (Some(p), Some(c)) => p@ == with_py_extension(join_path(directory@, c.new_name@)),
                (None, None) => true,
                _ => false,
            },
    {
        match &self.name_change {
            Some(c) => {
                let joined = join(directory, c.new_name.0.as_str());
                Some(set_py_extension(joined.as_str()))
            },
            None => None,
        }
    }

    /// Refuses a merge migration: one that depends on more than one
    /// migration of its own app.
    pub fn is_merge_migration(&self) -> (r: Result<(), String>)
        ensures
            match r {
                Ok(_) => same_app_count(self@.dependencies, self@.app_name) <= 1,
                Err(e) => same_app_count(self@.dependencies, self@.app_name) > 1
                    && e@ == merge_migration_message(self@.file_name),
            },
    {
        let ghost deps = self@.dependencies;
        let mut count: usize = 0;
        let mut i: usize = 0;
        while i < self.dependencies.len()
            invariant
                i <= self.dependencies.len(),
                deps == dependencies_view(self.dependencies@),
                count == same_app_count(deps.take(i as int), self.app_name@),
                count <= i,
            decreases self.dependencies.len() - i,
        {
            proof {
                assert(deps.take(i + 1).drop_last() =~= deps.take(i as int));
                assert(deps.take(i + 1).last() == self.dependencies@[i as int]@);
            }
            if self.dependencies[i].app == self.app_name {
                count = count + 1;
            }
            i = i + 1;
        }
        assert(deps.take(self.dependencies.len() as int) =~= deps);
        if count > 1 {
            let mut msg = String::from_str("Merge migration detected in rebased migration: ");
            msg.append(self.file_name.0.as_str());
            msg.append(". Currently, merge migrations cannot be resolved properly when they are not part of the HEAD branch. In fact, you can use this tool to avoid merge migrations by rebasing your feature branch on the latest HEAD migration.");
            return Err(msg);
        }
        Ok(())
    }

    /// The same migration, as a new value.
    pub fn duplicate(&self) -> (r: Migration)
        ensures
            r@ == self@,
    {
        Migration {
            file_name: self.file_name.duplicate(),
            file_path: self.file_path.clone(),
            app_name: self.app_name.clone(),
            dependencies: duplicate_dependencies(&self.dependencies),
            from_rebased_branch: self.from_rebased_branch,
            name_change: match &self.name_change {
                Some(c) => Some(c.duplicate()),
                None => None,
            },
            dependency_change: match &self.dependency_change {
                Some(c) => Some(c.duplicate()),
                None => None,
            },
        }
    }
}


/// The key under which a migration counts as visited: its app and name.
pub open spec fn migration_key(m: MigrationView) -> Seq<char> {
    m.app_name + ":"@ + m.file_name
}

/// What loading the migration that `dep` names gives, from the directory
/// of `current`: only a migration of the same app whose file is there.
pub open spec fn loaded_dependency(
    dep: (Seq<char>, Seq<char>),
    current: MigrationView,
    files: Seq<(Seq<char>, Seq<char>)>,
) -> Result<MigrationView, Seq<char>> {
    if dep.0 == current.app_name {
        let p = with_py_extension(join_path(parent_text(current.file_path), dep.1));
        if source_of(files, p) is Some {
            loaded_migration(p, files)
        } else {
            Err("Could not find migration "@ + dep.1 + " in app "@ + dep.0)
        }
    } else {
        Err("Migration is of another app."@)
    }
}

/// The migrations that visiting `current` puts on the stack: for its
/// dependencies from the last to the first, each one that loads and is
/// not visited yet.
pub open spec fn pushed_dependencies(
    deps: Seq<(Seq<char>, Seq<char>)>,
    current: MigrationView,
    visited: Seq<Seq<char>>,
    files: Seq<(Seq<char>, Seq<char>)>,
) -> Seq<MigrationView>
    decreases deps.len(),
{
    if deps.len() == 0 {
        Seq::empty()
    } else {
        let rest = pushed_dependencies(deps.drop_first(), current, visited, files);
        match loaded_dependency(deps[0], current, files) {
            Ok(m) => if visited.contains(migration_key(m)) {
                rest
            } else {
                rest.push(m)
            },
            Err(_) => rest,
        }
    }
}

/// The stack without the visited migrations at its top.
pub open spec fn unvisited_top(stack: Seq<MigrationView>, visited: Seq<Seq<char>>) -> Seq<MigrationView>
    decreases stack.len(),
{
    if stack.len() == 0 {
        stack
    } else if visited.contains(migration_key(stack.last())) {
        unvisited_top(stack.drop_last(), visited)
    } else {
        stack
    }
}

/// The key of a migration.
fn key_of(m: &Migration) -> (r: String)
    ensures
        r@ == migration_key(m@),
{
    let mut r = m.app_name.clone();
    r.append(":");
    r.append(m.file_name.0.as_str());
    r
}

/// Whether `v` holds the text `k`.
pub fn contains_text(v: &Vec<String>, k: &String) -> (r: bool)
    ensures
        r == texts(v@).contains(k@),
{
    let mut i: usize = 0;
    while i < v.len()
        invariant
            i <= v.len(),
            forall|j: int| 0 <= j < i ==> texts(v@)[j] != k@,
        decreases v.len() - i,
    {
        if v[i] == *k {
            assert(texts(v@)[i as int] == k@);
            return true;
        }
        i = i + 1;
    }
    false
}

/// A depth-first walk from a migration through the dependencies on
/// migrations of its own app.
#[derive(Debug)]
pub struct MigrationDependencyIterator {
    pub migration_stack: Vec<Migration>,
    pub visited: Vec<String>,
}

impl MigrationDependencyIterator {
    /// The migrations waiting to be visited, the next one last.
    pub open spec fn stack_view(&self) -> Seq<MigrationView> {
        migrations_view(self.migration_stack@)
    }

    /// The keys of the visited migrations.
    pub open spec fn visited_view(&self) -> Seq<Seq<char>> {
        texts(self.visited@)
    }

    pub fn new(initial_migration: Migration) -> (r: MigrationDependencyIterator)
        ensures
            r.stack_view() == seq![initial_migration@],
            r.visited_view() == Seq::<Seq<char>>::empty(),
    {
        let mut migration_stack: Vec<Migration> = Vec::new();
        migration_stack.push(initial_migration);
        let r = MigrationDependencyIterator { migration_stack, visited: Vec::new() };
        assert(r.stack_view() =~= seq![initial_migration@]);
        assert(r.visited_view() =~= Seq::<Seq<char>>::empty());
        r
    }

    /// Loads the migration that `dependency` names out of `files`, where it
    /// belongs to the app of `current_migration` and its file is there.
    pub fn load_dependency_migration(
        &self,
        dependency: &MigrationDependency,
        current_migration: &Migration,
        files: &Vec<SourceFile>,
    ) -> (r: Result<Migration, String>)
        requires
            sources_fit(sources_view(files@)),
        ensures
            match r {
                Ok(m) => loaded_dependency(dependency@, current_migration@, sources_view(files@)) == Ok::<MigrationView, Seq<char>>(m@),
                Err(e) => loaded_dependency(dependency@, current_migration@, sources_view(files@)) == Err::<MigrationView, Seq<char>>(e@),
            },
    {
        if dependency.app == current_migration.app_name {
            let dir = parent_path(current_migration.file_path.as_str());
            let joined = join(dir.as_str(), dependency.migration_file.0.as_str());
            let migration_path = set_py_extension(joined.as_str());
            if find_source(files, migration_path.as_str()).is_some() {
                return Migration::try_from(migration_path.as_str(), files);
            }
            let mut msg = String::from_str("Could not find migration ");
            msg.append(dependency.migration_file.0.as_str());
            msg.append(" in app ");
            msg.append(dependency.app.as_str());
            Err(msg)
        } else {
            Err(String::from_str("Migration is of another app."))
        }
    }

    /// The next migration of the walk: the top of the stack that is not
    /// visited yet, after which its loadable, unvisited dependencies are
    /// put on the stack, the first one on top.
    pub fn next(&mut self, files: &Vec<SourceFile>) -> (r: Option<Migration>)
        requires
            sources_fit(sources_view(files@)),
        ensures
            ({
                let top = unvisited_top(old(self).stack_view(), old(self).visited_view());
                match r {
                    None => {
                        &&& top.len() == 0
                        &&& final(self).stack_view() == top
                        &&& final(self).visited_view() == old(self).visited_view()
                    },
                    Some(c) => {
                        &&& top.len() > 0
                        &&& c@ == top.last()
                        &&& !old(self).visited_view().contains(migration_key(c@))
                        &&& final(self).visited_view() == old(self).visited_view().push(migration_key(c@))
                        &&& final(self).stack_view() == top.drop_last() + pushed_dependencies(
                            c@.dependencies,
                            c@,
                            final(self).visited_view(),
                            sources_view(files@),
                        )
                    },
                }
            }),
    {
        let ghost top = unvisited_top(self.stack_view(), self.visited_view());
        let ghost v0 = self.visited_view();
        loop
            invariant
                v0 == old(self).visited_view(),
                top == unvisited_top(old(self).stack_view(), old(self).visited_view()),
                self.visited_view() == v0,
                unvisited_top(self.stack_view(), v0) == top,
                sources_fit(sources_view(files@)),
            decreases self.migration_stack.len(),
        {
            let ghost before = self.stack_view();
            match self.migration_stack.pop() {
                None => {
                    assert(self.stack_view() =~= Seq::<MigrationView>::empty());
                    return None;
                },
                Some(current) => {
                    proof {
                        assert(before.drop_last() =~= self.stack_view());
                        assert(before.last() == current@);
                    }
                    let key = key_of(&current);
                    if contains_text(&self.visited, &key) {
                        continue;
                    }
                    assert(top == before);
                    self.visited.push(key);
                    let ghost v1 = self.visited_view();
                    assert(v1 =~= v0.push(migration_key(current@)));
                    let ghost base = self.stack_view();
                    let ghost deps = current@.dependencies;
                    let mut i = current.dependencies.len();
                    assert(deps.skip(i as int) =~= Seq::<(Seq<char>, Seq<char>)>::empty());
                    assert(base + pushed_dependencies(deps.skip(i as int), current@, v1, sources_view(files@)) =~= base);
                    while i > 0
                        invariant
                            i <= current.dependencies.len(),
                            deps == current@.dependencies,
                            self.visited_view() == v1,
                            self.stack_view() == base + pushed_dependencies(deps.skip(i as int), current@, v1, sources_view(files@)),
                            sources_fit(sources_view(files@)),
                        decreases i,
                    {
                        i = i - 1;
                        let ghost before_push = self.stack_view();
                        proof {
                            assert(deps.skip(i as int).drop_first() =~= deps.skip(i + 1));
                            assert(deps.skip(i as int)[0] == current.dependencies@[i as int]@);
                        }
                        match self.load_dependency_migration(&current.dependencies[i], &current, files) {
                            Ok(dep_migration) => {
                                let dep_key = key_of(&dep_migration);
                                if !contains_text(&self.visited, &dep_key) {
                                    self.migration_stack.push(dep_migration);
                                    assert(self.stack_view() =~= before_push.push(dep_migration@));
                                }
                            },
                            Err(_) => {},
                        }
                    }
                    assert(deps.skip(0) =~= deps);
                    return Some(current);
                },
            }
        }
    }
}

/// The migrations that a migration depends on, directly or not, within
/// its app, walked from the migration itself.
#[derive(Debug)]
pub struct MigrationIterator {
    pub dependency_iterator: MigrationDependencyIterator,
}

impl MigrationIterator {
    /// The next migration of the walk.
    pub fn next(&mut self, files: &Vec<SourceFile>) -> (r: Option<Migration>)
        requires
            sources_fit(sources_view(files@)),
        ensures
            ({
                let it = old(self).dependency_iterator;
                let top = unvisited_top(it.stack_view(), it.visited_view());
                match r {
                    None => {
                        &&& top.len() == 0
                        &&& final(self).dependency_iterator.stack_view() == top
                        &&& final(self).dependency_iterator.visited_view() == it.visited_view()
                    },
                    Some(c) => {
                        &&& top.len() > 0
                        &&& c@ == top.last()
                        &&& !it.visited_view().contains(migration_key(c@))
                        &&& final(self).dependency_iterator.visited_view() == it.visited_view().push(migration_key(c@))
                        &&& final(self).dependency_iterator.stack_view() == top.drop_last() + pushed_dependencies(
                            c@.dependencies,
                            c@,
                            final(self).dependency_iterator.visited_view(),
                            sources_view(files@),
                        )
                    },
                }
            }),
    {
        self.dependency_iterator.next(files)
    }
}

impl Migration {
    /// A walk from this migration through its dependencies within its app.
    pub fn iter(&self) -> (r: MigrationIterator)
        ensures
            r.dependency_iterator.stack_view() == seq![self@],
            r.dependency_iterator.visited_view() == Seq::<Seq<char>>::empty(),
    {
        MigrationIterator { dependency_iterator: MigrationDependencyIterator::new(self.duplicate()) }
    }
}

} // verus!
