//! The decisions of the row-level insert, update and delete handlers: which
//! required fields an insert leaves unset, the type hint for a column, the
//! document path, and how an edit of the ID cell becomes a rename.
use vstd::prelude::*;
use crate::firestore_filter::ID_COLUMN;
use crate::order::{join, join_strings};
use crate::schema_infer::{ColumnInfo, SColumn, columns_view, opt_view};
use crate::schema_overrides::find_entry;
use crate::text::{owned, push_str, same_text};

verus! {

/// The top-level shape of a JSON value sent by the host, with the text of
/// a number as JSON writes it.
pub enum CellValue {
    Null,
    Bool(bool),
    Number(String),
    Str(String),
    Array,
    Object,
}

pub enum SCell {
    Null,
    Bool(bool),
    Number(Seq<char>),
    Str(Seq<char>),
    Array,
    Object,
}

impl View for CellValue {
    type V = SCell;

    open spec fn view(&self) -> SCell {
        match self {
            CellValue::Null => SCell::Null,
            CellValue::Bool(b) => SCell::Bool(*b),
            CellValue::Number(t) => SCell::Number(t@),
            CellValue::Str(s) => SCell::Str(s@),
            CellValue::Array => SCell::Array,
            CellValue::Object => SCell::Object,
        }
    }
}

pub open spec fn record_view(data: Seq<(String, CellValue)>) -> Seq<(Seq<char>, SCell)> {
    data.map_values(|p: (String, CellValue)| (p.0@, p.1@))
}

/// A document ID given as a cell: a non-empty string, or a number's text.
pub open spec fn cell_text(v: SCell) -> Option<Seq<char>> {
    match v {
        SCell::Str(s) => if s.len() > 0 {
            Some(s)
        } else {
            None
        },
        SCell::Number(t) => Some(t),
        _ => None,
    }
}

/// The text of a cell used as a document ID.
pub fn value_to_string(v: &CellValue) -> (r: Option<String>)
    ensures
        match cell_text(v@) {
            Some(t) => r matches Some(x) && x@ == t,
            None => r is None,
        },
{
    match v {
        CellValue::Str(s) => if s.unicode_len() > 0 {
            Some(s.clone())
        } else {
            None
        },
        CellValue::Number(t) => Some(t.clone()),
        _ => None,
    }
}

/// Whether a field counts as unset: absent, null or the empty string.
pub open spec fn unset(v: Option<SCell>) -> bool {
    match v {
        None => true,
        Some(SCell::Null) => true,
        Some(SCell::Str(s)) => s.len() == 0,
        Some(_) => false,
    }
}

/// Whether a column must be set on insert and is not.
pub open spec fn missing_required(c: SColumn, data: Seq<(Seq<char>, SCell)>) -> bool {
    !c.is_nullable && c.name != ID_COLUMN@ && unset(find_entry(data, c.name))
}

/// The names of the required columns (other than the ID) that `data`
/// leaves unset, in column order.
pub open spec fn missing_spec(cols: Seq<SColumn>, data: Seq<(Seq<char>, SCell)>) -> Seq<Seq<char>> {
    cols.filter(|c: SColumn| missing_required(c, data)).map_values(|c: SColumn| c.name)
}

fn lookup_cell<'a>(data: &'a Vec<(String, CellValue)>, name: &str) -> (r: Option<&'a CellValue>)
    ensures
        match find_entry(record_view(data@), name@) {
            Some(v) => r matches Some(x) && x@ == v,
            None => r is None,
        },
{
    let ghost rv = record_view(data@);
    let mut i: usize = 0;
    assert(rv.skip(0) =~= rv);
    while i < data.len()
        invariant
            rv == record_view(data@),
            0 <= i <= data@.len(),
            find_entry(rv, name@) == find_entry(rv.skip(i as int), name@),
        decreases data@.len() - i,
    {
        assert(rv.skip(i as int)[0] == rv[i as int]);
        if same_text(data[i].0.as_str(), name) {
            return Some(&data[i].1);
        }
        assert(rv.skip(i as int).drop_first() =~= rv.skip(i + 1));
        i += 1;
    }
    None
}

/// The required columns, other than the ID column, that an insert of
/// `data` leaves absent, null or empty.
pub fn required_fields_missing(columns: &[ColumnInfo], data: &Vec<(String, CellValue)>) -> (r: Vec<String>)
    ensures
        crate::ast::strings_view(r@) == missing_spec(columns_view(columns@), record_view(data@)),
{
    let ghost cv = columns_view(columns@);
    let ghost dv = record_view(data@);
    let ghost pred = |c: SColumn| missing_required(c, dv);
    let ghost nm = |c: SColumn| c.name;
    let mut out: Vec<String> = Vec::new();
    let mut i: usize = 0;
    assert(cv.subrange(0, 0).filter(pred) =~= Seq::<SColumn>::empty()) by {
        reveal_with_fuel(Seq::filter, 1);
    }
    while i < columns.len()
        invariant
            cv == columns_view(columns@),
            dv == record_view(data@),
            pred == (|c: SColumn| missing_required(c, dv)),
            nm == (|c: SColumn| c.name),
            0 <= i <= columns@.len(),
            crate::ast::strings_view(out@) == cv.subrange(0, i as int).filter(pred).map_values(nm),
        decreases columns@.len() - i,
    {
        let c = &columns[i];
        let unset_now = match lookup_cell(data, c.name.as_str()) {
            None => true,
            Some(CellValue::Null) => true,
            Some(CellValue::Str(s)) => s.unicode_len() == 0,
            Some(_) => false,
        };
        let miss = !c.is_nullable && !same_text(c.name.as_str(), ID_COLUMN) && unset_now;
        proof {
            assert(cv[i as int] == c@);
            assert(cv.subrange(0, i + 1) =~= cv.subrange(0, i as int).push(c@));
            cv.subrange(0, i as int).lemma_filter_push(c@, pred);
            assert(miss == missing_required(c@, dv));
        }
        if miss {
            let ghost before = crate::ast::strings_view(out@);
            out.push(c.name.clone());
            proof {
                assert(crate::ast::strings_view(out@) =~= before.push(c@.name));
                assert(cv.subrange(0, i as int).filter(pred).push(c@).map_values(nm)
                    =~= cv.subrange(0, i as int).filter(pred).map_values(nm).push(c@.name));
            }
        }
        i += 1;
    }
    assert(cv.subrange(0, columns@.len() as int) =~= cv);
    out
}

/// The error an insert gets when required fields are unset.
pub fn missing_fields_message(missing: &Vec<String>) -> (r: String)
    ensures
        r@ == "Required field(s) not set: "@ + join(crate::ast::strings_view(missing@), ", "@)
            + ". The plugin's schema declares these as is_nullable=false (likely via your schema-overrides file). Fill them in or mark the field optional in the override."@,
{
    let mut m = owned("Required field(s) not set: ");
    let j = join_strings(missing, ", ");
    push_str(&mut m, j.as_str());
    push_str(
        &mut m,
        ". The plugin's schema declares these as is_nullable=false (likely via your schema-overrides file). Fill them in or mark the field optional in the override.",
    );
    m
}

/// The type of the first column named `col_name`, a hint for coercing an
/// edited value.
pub fn column_hint(columns: &[ColumnInfo], col_name: &str) -> (r: Option<String>)
    ensures
        match r {
            Some(t) => exists|i: int|
                0 <= i < columns@.len() && columns@[i].name@ == col_name@ && columns@[i].data_type@
                    == t@ && forall|j: int| 0 <= j < i ==> columns@[j].name@ != col_name@,
            None => forall|j: int| 0 <= j < columns@.len() ==> columns@[j].name@ != col_name@,
        },
{
    let mut i: usize = 0;
    while i < columns.len()
        invariant
            0 <= i <= columns@.len(),
            forall|j: int| 0 <= j < i ==> columns@[j].name@ != col_name@,
        decreases columns@.len() - i,
    {
        if same_text(columns[i].name.as_str(), col_name) {
            let t = columns[i].data_type.clone();
            assert(columns@[i as int].data_type@ == t@);
            return Some(t);
        }
        i += 1;
    }
    None
}

/// An ID given explicitly in an insert: the `id` entry when it is a
/// non-empty string.
pub fn explicit_id(data: &Vec<(String, CellValue)>) -> (r: Option<String>)
    ensures
        match find_entry(record_view(data@), ID_COLUMN@) {
            Some(SCell::Str(s)) => if s.len() > 0 {
                r matches Some(x) && x@ == s
            } else {
                r is None
            },
            _ => r is None,
        },
{
    match lookup_cell(data, ID_COLUMN) {
        Some(CellValue::Str(s)) => if s.unicode_len() > 0 {
            Some(s.clone())
        } else {
            None
        },
        _ => None,
    }
}

/// The resource path of a document.
pub fn document_path(project: &str, database: &str, table: &str, id: &str) -> (r: String)
    ensures
        r@ == "projects/"@ + project@ + "/databases/"@ + database@ + "/documents/"@ + table@ + "/"@
            + id@,
{
    let mut m = owned("projects/");
    push_str(&mut m, project);
    push_str(&mut m, "/databases/");
    push_str(&mut m, database);
    push_str(&mut m, "/documents/");
    push_str(&mut m, table);
    push_str(&mut m, "/");
    push_str(&mut m, id);
    m
}

/// What an edit of the ID cell asks for: an error unless the new value is
/// a non-empty string; nothing to do when it equals the old ID; else a
/// rename to it.
pub fn rename_target(old_id: &str, new_val: &CellValue) -> (r: Result<Option<String>, String>)
    ensures
        match new_val@ {
            SCell::Str(s) => if s.len() == 0 {
                r matches Err(m) && m@ == rename_needs_id_message()
            } else if s == old_id@ {
                r matches Ok(None)
            } else {
                r matches Ok(Some(x)) && x@ == s
            },
            _ => r matches Err(m) && m@ == rename_needs_id_message(),
        },
{
    match new_val {
        CellValue::Str(s) => if s.unicode_len() == 0 {
            Err(owned("renaming an id requires a non-empty string. To clear the id, delete the document instead."))
        } else if same_text(s.as_str(), old_id) {
            Ok(None)
        } else {
            Ok(Some(s.clone()))
        },
        _ => Err(owned("renaming an id requires a non-empty string. To clear the id, delete the document instead.")),
    }
}

pub open spec fn rename_needs_id_message() -> Seq<char> {
    "renaming an id requires a non-empty string. To clear the id, delete the document instead."@
}

pub open spec fn rename_collision_text(new_id: Seq<char>) -> Seq<char> {
    "Cannot rename to '"@ + new_id
        + "': a document with that id already exists. Pick a different id or delete the existing one first."@
}

pub open spec fn rename_delete_failed_text(new_id: Seq<char>, old_id: Seq<char>, msg: Seq<char>) -> Seq<char> {
    "Renamed copy created at '"@ + new_id + "' but failed to delete the source at '"@ + old_id
        + "': "@ + msg + ". You now have both — delete one manually."@
}

/// The error when the rename target already exists.
pub fn rename_collision_message(new_id: &str) -> (r: String)
    ensures
        r@ == rename_collision_text(new_id@),
{
    let mut m = owned("Cannot rename to '");
    push_str(&mut m, new_id);
    push_str(&mut m, "': a document with that id already exists. Pick a different id or delete the existing one first.");
    m
}

/// The error when the copy was created but the source could not be
/// deleted.
pub fn rename_delete_failed_message(new_id: &str, old_id: &str, msg: &str) -> (r: String)
    ensures
        r@ == rename_delete_failed_text(new_id@, old_id@, msg@),
{
    let mut m = owned("Renamed copy created at '");
    push_str(&mut m, new_id);
    push_str(&mut m, "' but failed to delete the source at '");
    push_str(&mut m, old_id);
    push_str(&mut m, "': ");
    push_str(&mut m, msg);
    push_str(&mut m, ". You now have both — delete one manually.");
    m
}

/// The Firestore calls of a rename, in the order they are made: read the
/// source, look for a document at the new ID, write the copy, delete the
/// source.
#[derive(Debug, Clone, Copy, PartialEq, Eq, Structural)]
pub enum RenameStep {
    ReadSource,
    CheckTarget,
    WriteCopy,
    DeleteSource,
}

/// What the last call of a rename came back with. `Exists` answers the
/// look-up at the new ID when a document is there; a failure carries the
/// code, message and index URL its error maps to.
#[derive(Debug)]
pub enum RenameOutcome {
    Done,
    Exists,
    Failed(i64, String, Option<String>),
}

/// What a rename does next: make a call, answer with an error, or finish
/// (the table's caches are dropped and success reported).
#[derive(Debug)]
pub enum RenameAction {
    Call(RenameStep),
    Fail(i64, String, Option<String>),
    Finish,
}

pub enum SRenameOutcome {
    Done,
    Exists,
    Failed(i64, Seq<char>, Option<Seq<char>>),
}

pub enum SRenameAction {
    Call(RenameStep),
    Fail(i64, Seq<char>, Option<Seq<char>>),
    Finish,
}

impl View for RenameOutcome {
    type V = SRenameOutcome;

    open spec fn view(&self) -> SRenameOutcome {
        match self {
            RenameOutcome::Done => SRenameOutcome::Done,
            RenameOutcome::Exists => SRenameOutcome::Exists,
            RenameOutcome::Failed(c, m, u) => SRenameOutcome::Failed(*c, m@, opt_view(*u)),
        }
    }
}

impl View for RenameAction {
    type V = SRenameAction;

    open spec fn view(&self) -> SRenameAction {
        match self {
            RenameAction::Call(s) => SRenameAction::Call(*s),
            RenameAction::Fail(c, m, u) => SRenameAction::Fail(*c, m@, opt_view(*u)),
            RenameAction::Finish => SRenameAction::Finish,
        }
    }
}

/// The step after `step` came back with `outcome`: a failed read, write or
/// delete ends the rename with its error (a failed delete says that both
/// documents now exist); a document at the new ID ends it with the
/// collision error, while a failed look-up there counts as none; each
/// other call leads to the next, and a done delete finishes.
pub open spec fn rename_next_spec(
    step: RenameStep,
    outcome: SRenameOutcome,
    new_id: Seq<char>,
    old_id: Seq<char>,
) -> SRenameAction {
    match step {
        RenameStep::ReadSource => match outcome {
            SRenameOutcome::Failed(c, m, u) => SRenameAction::Fail(c, m, u),
            _ => SRenameAction::Call(RenameStep::CheckTarget),
        },
        RenameStep::CheckTarget => match outcome {
            SRenameOutcome::Exists => SRenameAction::Fail(-32602i64, rename_collision_text(new_id), None),
            _ => SRenameAction::Call(RenameStep::WriteCopy),
        },
        RenameStep::WriteCopy => match outcome {
            SRenameOutcome::Failed(c, m, u) => SRenameAction::Fail(c, m, u),
            _ => SRenameAction::Call(RenameStep::DeleteSource),
        },
        RenameStep::DeleteSource => match outcome {
            SRenameOutcome::Failed(c, m, u) => SRenameAction::Fail(
                c,
                rename_delete_failed_text(new_id, old_id, m),
                u,
            ),
            _ => SRenameAction::Finish,
        },
    }
}

/// The next step of the rename of `old_id` to `new_id` (see
/// `rename_next_spec`).
pub fn rename_next(step: RenameStep, outcome: RenameOutcome, new_id: &str, old_id: &str) -> (r: RenameAction)
    ensures
        r@ == rename_next_spec(step, outcome@, new_id@, old_id@),
{
    match step {
        RenameStep::ReadSource => match outcome {
            RenameOutcome::Failed(c, m, u) => RenameAction::Fail(c, m, u),
            _ => RenameAction::Call(RenameStep::CheckTarget),
        },
        RenameStep::CheckTarget => match outcome {
            RenameOutcome::Exists => RenameAction::Fail(-32602, rename_collision_message(new_id), None),
            _ => RenameAction::Call(RenameStep::WriteCopy),
        },
        RenameStep::WriteCopy => match outcome {
            RenameOutcome::Failed(c, m, u) => RenameAction::Fail(c, m, u),
            _ => RenameAction::Call(RenameStep::DeleteSource),
        },
        RenameStep::DeleteSource => match outcome {
            RenameOutcome::Failed(c, m, u) => RenameAction::Fail(
                c,
                rename_delete_failed_message(new_id, old_id, m.as_str()),
                u,
            ),
            _ => RenameAction::Finish,
        },
    }
}

} // verus!
