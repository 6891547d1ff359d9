//! Operations of the file storage's write-ahead journal, and their JSON
//! lines.

use vstd::prelude::*;
use crate::jsontext::{object_of, object_text, pair_texts};

verus! {

/// One storage operation, recorded before it is applied.
#[derive(Clone, Debug)]
pub enum JournalOp {
    WriteStep { execution_id: String, step_file: String, data: String },
    WriteMetadata { execution_id: String, data: String },
    WriteSignal { execution_id: String, name: String, data: String },
    DeleteSignal { execution_id: String, name: String },
    WriteTimer { execution_id: String, name: String, data: String },
    DeleteTimer { execution_id: String, name: String },
}

/// The members of an operation's JSON object, in order of key.
pub open spec fn op_members(op: JournalOp) -> Seq<(Seq<char>, Seq<char>)> {
    match op {
        JournalOp::WriteStep { execution_id, step_file, data } => seq![
            ("data"@, data@),
            ("execution_id"@, execution_id@),
            ("op"@, "write_step"@),
            ("step_file"@, step_file@),
        ],
        JournalOp::WriteMetadata { execution_id, data } => seq![
            ("data"@, data@),
            ("execution_id"@, execution_id@),
            ("op"@, "write_metadata"@),
        ],
        JournalOp::WriteSignal { execution_id, name, data } => seq![
            ("data"@, data@),
            ("execution_id"@, execution_id@),
            ("name"@, name@),
            ("op"@, "write_signal"@),
        ],
        JournalOp::DeleteSignal { execution_id, name } => seq![
            ("execution_id"@, execution_id@),
            ("name"@, name@),
            ("op"@, "delete_signal"@),
        ],
        JournalOp::WriteTimer { execution_id, name, data } => seq![
            ("data"@, data@),
            ("execution_id"@, execution_id@),
            ("name"@, name@),
            ("op"@, "write_timer"@),
        ],
        JournalOp::DeleteTimer { execution_id, name } => seq![
            ("execution_id"@, execution_id@),
            ("name"@, name@),
            ("op"@, "delete_timer"@),
        ],
    }
}

fn pair(k: &str, v: &String) -> (p: (String, String))
    ensures
        p.0@ == k@,
        p.1 == *v,
{
    (k.to_string(), v.clone())
}

impl JournalOp {
    /// The operation as a JSON line: an object with its kind under `op`.
    pub fn to_json_text(&self) -> (s: String)
        ensures
            s@ == object_text(op_members(*self)),
    {
        let mut p: Vec<(String, String)> = Vec::new();
        match self {
            JournalOp::WriteStep { execution_id, step_file, data } => {
                p.push(pair("data", data));
                p.push(pair("execution_id", execution_id));
                p.push(pair("op", &"write_step".to_string()));
                p.push(pair("step_file", step_file));
            },
            JournalOp::WriteMetadata { execution_id, data } => {
                p.push(pair("data", data));
                p.push(pair("execution_id", execution_id));
                p.push(pair("op", &"write_metadata".to_string()));
            },
            JournalOp::WriteSignal { execution_id, name, data } => {
                p.push(pair("data", data));
                p.push(pair("execution_id", execution_id));
                p.push(pair("name", name));
                p.push(pair("op", &"write_signal".to_string()));
            },
            JournalOp::DeleteSignal { execution_id, name } => {
                p.push(pair("execution_id", execution_id));
                p.push(pair("name", name));
                p.push(pair("op", &"delete_signal".to_string()));
            },
            JournalOp::WriteTimer { execution_id, name, data } => {
                p.push(pair("data", data));
                p.push(pair("execution_id", execution_id));
                p.push(pair("name", name));
                p.push(pair("op", &"write_timer".to_string()));
            },
            JournalOp::DeleteTimer { execution_id, name } => {
                p.push(pair("execution_id", execution_id));
                p.push(pair("name", name));
                p.push(pair("op", &"delete_timer".to_string()));
            },
        }
        assert(pair_texts(p@) =~= op_members(*self));
        object_of(&p)
    }
}

/// The text of a field that may be missing: empty when it is.
pub open spec fn or_empty(x: Option<&str>) -> Seq<char> {
    match x {
        Some(t) => t@,
        None => Seq::empty(),
    }
}

/// The operation names a journal knows.
pub open spec fn known_op(o: Seq<char>) -> bool {
    ||| o == "write_step"@
    ||| o == "write_metadata"@
    ||| o == "write_signal"@
    ||| o == "delete_signal"@
    ||| o == "write_timer"@
    ||| o == "delete_timer"@
}

/// The members of the operation named `o` with these field texts.
pub open spec fn read_members(o: Seq<char>, e: Seq<char>, f: Seq<char>, n: Seq<char>, d: Seq<char>) -> Seq<(Seq<char>, Seq<char>)> {
    if o == "write_step"@ {
        seq![("data"@, d), ("execution_id"@, e), ("op"@, o), ("step_file"@, f)]
    } else if o == "write_metadata"@ {
        seq![("data"@, d), ("execution_id"@, e), ("op"@, o)]
    } else if o == "write_signal"@ {
        seq![("data"@, d), ("execution_id"@, e), ("name"@, n), ("op"@, o)]
    } else if o == "delete_signal"@ {
        seq![("execution_id"@, e), ("name"@, n), ("op"@, o)]
    } else if o == "write_timer"@ {
        seq![("data"@, d), ("execution_id"@, e), ("name"@, n), ("op"@, o)]
    } else {
        seq![("execution_id"@, e), ("name"@, n), ("op"@, o)]
    }
}

fn own(x: Option<&str>) -> (r: String)
    ensures
        r@ == or_empty(x),
{
    match x {
        Some(t) => t.to_string(),
        None => String::new(),
    }
}

impl JournalOp {
    /// The operation that a journal line's fields describe: `op` names it
    /// and must be there; a missing text field reads as empty.
    pub fn from_fields(
        op: Option<&str>,
        execution_id: Option<&str>,
        step_file: Option<&str>,
        name: Option<&str>,
        data: Option<&str>,
    ) -> (r: Result<JournalOp, String>)
        ensures
            op is None ==> (r matches Err(m) && m@ == "missing op field"@),
            op matches Some(o) ==> (r is Ok <==> known_op(o@)),
            op is Some && !known_op(op->0@) ==> (r matches Err(m) && m@ == "unknown journal op: "@ + op->0@),
            r matches Ok(x) ==> op_members(x) == read_members(
                op->0@,
                or_empty(execution_id),
                or_empty(step_file),
                or_empty(name),
                or_empty(data),
            ),
    {
        let o = match op {
            Some(o) => o,
            None => {
                let m = "missing op field".to_string();
                return Err(m);
            },
        };
        let e = own(execution_id);
        proof {
            reveal_strlit("write_step");
            reveal_strlit("write_metadata");
            reveal_strlit("write_signal");
            reveal_strlit("delete_signal");
            reveal_strlit("write_timer");
            reveal_strlit("delete_timer");
        }
        if crate::replay::str_eq(o, "write_step") {
            Ok(JournalOp::WriteStep { execution_id: e, step_file: own(step_file), data: own(data) })
        } else if crate::replay::str_eq(o, "write_metadata") {
            Ok(JournalOp::WriteMetadata { execution_id: e, data: own(data) })
        } else if crate::replay::str_eq(o, "write_signal") {
            Ok(JournalOp::WriteSignal { execution_id: e, name: own(name), data: own(data) })
        } else if crate::replay::str_eq(o, "delete_signal") {
            Ok(JournalOp::DeleteSignal { execution_id: e, name: own(name) })
        } else if crate::replay::str_eq(o, "write_timer") {
            Ok(JournalOp::WriteTimer { execution_id: e, name: own(name), data: own(data) })
        } else if crate::replay::str_eq(o, "delete_timer") {
            Ok(JournalOp::DeleteTimer { execution_id: e, name: own(name) })
        } else {
            let mut m = "unknown journal op: ".to_string();
            m.push_str(o);
            Err(m)
        }
    }
}

/// The operation's name, as its line records it under `op`.
pub open spec fn op_name(op: JournalOp) -> Seq<char> {
    match op {
        JournalOp::WriteStep { .. } => "write_step"@,
        JournalOp::WriteMetadata { .. } => "write_metadata"@,
        JournalOp::WriteSignal { .. } => "write_signal"@,
        JournalOp::DeleteSignal { .. } => "delete_signal"@,
        JournalOp::WriteTimer { .. } => "write_timer"@,
        JournalOp::DeleteTimer { .. } => "delete_timer"@,
    }
}

/// The field texts of an operation, as its line records them: its
/// execution, step file, name and data (empty where it has none).
pub open spec fn op_fields(op: JournalOp) -> (Seq<char>, Seq<char>, Seq<char>, Seq<char>) {
    match op {
        JournalOp::WriteStep { execution_id, step_file, data } => (execution_id@, step_file@, Seq::empty(), data@),
        JournalOp::WriteMetadata { execution_id, data } => (execution_id@, Seq::empty(), Seq::empty(), data@),
        JournalOp::WriteSignal { execution_id, name, data } => (execution_id@, Seq::empty(), name@, data@),
        JournalOp::DeleteSignal { execution_id, name } => (execution_id@, Seq::empty(), name@, Seq::empty()),
        JournalOp::WriteTimer { execution_id, name, data } => (execution_id@, Seq::empty(), name@, data@),
        JournalOp::DeleteTimer { execution_id, name } => (execution_id@, Seq::empty(), name@, Seq::empty()),
    }
}

/// Reading an operation back from the fields of its line gives the same
/// operation: its `op` is a known name, and its fields rebuild its
/// members.
pub proof fn law_journal_line_fields_roundtrip(op: JournalOp)
    ensures
        known_op(op_name(op)),
        read_members(op_name(op), op_fields(op).0, op_fields(op).1, op_fields(op).2, op_fields(op).3) == op_members(op),
{
    reveal_strlit("write_step");
    reveal_strlit("write_metadata");
    reveal_strlit("write_signal");
    reveal_strlit("delete_signal");
    reveal_strlit("write_timer");
    reveal_strlit("delete_timer");
    assert("write_step"@.len() == 10);
    assert("write_metadata"@.len() == 14);
    assert("write_signal"@.len() == 12);
    assert("delete_signal"@.len() == 13);
    assert("write_timer"@.len() == 11);
    assert("delete_timer"@.len() == 12);
    assert("delete_timer"@[0] != "write_signal"@[0]);
    let f = op_fields(op);
    assert(read_members(op_name(op), f.0, f.1, f.2, f.3) =~= op_members(op));
}

} // verus!
