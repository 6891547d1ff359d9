//! Tool definitions, the process tool handler's settings, and the hash
//! that detects drift in a set of tool definitions.

use vstd::prelude::*;
use vstd::multiset::Multiset;
use vstd::utf8::encode_utf8;
use std::collections::HashMap;
use crate::hash::{fnv1a_hash, fnv1a_spec};

verus! {

/// A tool the agent can call. Its parameter schema is JSON text.
#[derive(Clone, Debug)]
pub struct ToolDefinition {
    /// Unique tool name.
    pub name: String,
    /// What the tool does.
    pub description: String,
    /// JSON Schema of the tool's parameters, serialised.
    pub parameters: String,
    /// Whether the tool needs human confirmation before it runs.
    pub requires_confirmation: bool,
}

impl ToolDefinition {
    /// A definition with a name and a description, whose parameter schema
    /// is an object with no properties, and which needs no confirmation.
    pub fn new(name: String, description: String) -> (d: Self)
        ensures
            d.name == name,
            d.description == description,
            d.parameters@ == "{\"properties\":{},\"type\":\"object\"}"@,
            !d.requires_confirmation,
    {
        ToolDefinition {
            name,
            description,
            parameters: "{\"properties\":{},\"type\":\"object\"}".to_string(),
            requires_confirmation: false,
        }
    }

    /// The definition with another parameter schema (JSON text).
    pub fn with_parameters(self, params: String) -> (d: Self)
        ensures
            d == (ToolDefinition { parameters: params, ..self }),
    {
        ToolDefinition { parameters: params, ..self }
    }

    /// The definition, needing human confirmation.
    pub fn with_confirmation(self) -> (d: Self)
        ensures
            d == (ToolDefinition { requires_confirmation: true, ..self }),
    {
        ToolDefinition { requires_confirmation: true, ..self }
    }
}

/// A call of a tool that the LLM asks for. Its arguments are JSON text.
#[derive(Clone, Debug)]
pub struct ToolCall {
    /// The call's id, which its result refers to.
    pub id: String,
    /// The tool's name.
    pub name: String,
    /// The arguments, as JSON text.
    pub arguments: String,
}

/// What a tool call gave back. The output is JSON text.
#[derive(Clone, Debug)]
pub struct ToolResult {
    pub call_id: String,
    pub output: String,
    pub is_error: bool,
}

/// `a` sorts strictly before `b`: at the first difference its character
/// is lower, or it is a proper prefix.
pub open spec fn text_lt(a: Seq<char>, b: Seq<char>) -> bool
    decreases a.len(),
{
    if b.len() == 0 {
        false
    } else if a.len() == 0 {
        true
    } else if a[0] != b[0] {
        (a[0] as int) < (b[0] as int)
    } else {
        text_lt(a.subrange(1, a.len() as int), b.subrange(1, b.len() as int))
    }
}

/// Whether `a` sorts strictly before `b`.
pub fn str_lt(a: &str, b: &str) -> (r: bool)
    ensures
        r == text_lt(a@, b@),
{
    let n = a.unicode_len();
    let m = b.unicode_len();
    let mut i: usize = 0;
    assert(a@.subrange(0, n as int) =~= a@);
    assert(b@.subrange(0, m as int) =~= b@);
    while i < n && i < m
        invariant
            n == a@.len(),
            m == b@.len(),
            i <= n,
            i <= m,
            a@.subrange(0, i as int) == b@.subrange(0, i as int),
            text_lt(a@, b@) == text_lt(a@.subrange(i as int, n as int), b@.subrange(i as int, m as int)),
        decreases n - i,
    {
        let x = a.get_char(i);
        let y = b.get_char(i);
        if x != y {
            proof {
                assert((x as u32) as int == x as int);
                assert((y as u32) as int == y as int);
            }
            return (x as u32) < (y as u32);
        }
        proof {
            let sa = a@.subrange(i as int, n as int);
            let sb = b@.subrange(i as int, m as int);
            assert(sa.subrange(1, sa.len() as int) =~= a@.subrange(i + 1, n as int));
            assert(sb.subrange(1, sb.len() as int) =~= b@.subrange(i + 1, m as int));
            assert(a@.subrange(0, i + 1) =~= a@.subrange(0, i as int).push(x));
            assert(b@.subrange(0, i + 1) =~= b@.subrange(0, i as int).push(y));
        }
        i += 1;
    }
    i < m
}

/// How many leading definitions do not sort after a name.
pub open spec fn leading_not_after(t: Seq<ToolDefinition>, name: Seq<char>) -> nat
    decreases t.len(),
{
    if t.len() > 0 && !text_lt(name, t[0].name@) {
        1 + leading_not_after(t.subrange(1, t.len() as int), name)
    } else {
        0
    }
}

/// Definitions sorted by name, stably: each one goes after the ones
/// before it whose names do not sort after its own.
pub open spec fn sorted_by_name(s: Seq<ToolDefinition>) -> Seq<ToolDefinition>
    decreases s.len(),
{
    if s.len() == 0 {
        Seq::empty()
    } else {
        let t = sorted_by_name(s.drop_last());
        let k = leading_not_after(t, s.last().name@) as int;
        t.subrange(0, k) + seq![s.last()] + t.subrange(k, t.len() as int)
    }
}

/// The text that is hashed: `name:description:parameters` for each
/// definition, joined by `|`.
pub open spec fn definitions_text(s: Seq<ToolDefinition>) -> Seq<char>
    decreases s.len(),
{
    if s.len() == 0 {
        Seq::empty()
    } else {
        let one = s.last().name@ + ":"@ + s.last().description@ + ":"@ + s.last().parameters@;
        if s.len() == 1 {
            one
        } else {
            definitions_text(s.drop_last()) + "|"@ + one
        }
    }
}

proof fn lemma_leading_bound(t: Seq<ToolDefinition>, name: Seq<char>)
    ensures
        leading_not_after(t, name) <= t.len(),
    decreases t.len(),
{
    if t.len() > 0 && !text_lt(name, t[0].name@) {
        lemma_leading_bound(t.subrange(1, t.len() as int), name);
    }
}

proof fn lemma_sorted_len(s: Seq<ToolDefinition>)
    ensures
        sorted_by_name(s).len() == s.len(),
    decreases s.len(),
{
    if s.len() > 0 {
        lemma_sorted_len(s.drop_last());
        lemma_leading_bound(sorted_by_name(s.drop_last()), s.last().name@);
    }
}

/// The position at which a name is inserted: after the leading entries
/// whose names do not sort after it.
fn insert_position(t: &Vec<ToolDefinition>, name: &str) -> (k: usize)
    ensures
        k == leading_not_after(t@, name@),
{
    let mut k: usize = 0;
    assert(t@.subrange(0, t@.len() as int) =~= t@);
    while k < t.len() && !str_lt(name, t[k].name.as_str())
        invariant
            k <= t@.len(),
            leading_not_after(t@, name@) == k + leading_not_after(t@.subrange(k as int, t@.len() as int), name@),
        decreases t@.len() - k,
    {
        proof {
            let r = t@.subrange(k as int, t@.len() as int);
            assert(r.subrange(1, r.len() as int) =~= t@.subrange(k + 1, t@.len() as int));
        }
        k += 1;
    }
    proof {
        let r = t@.subrange(k as int, t@.len() as int);
        if k < t@.len() {
            assert(r[0] == t@[k as int]);
        } else {
            assert(r.len() == 0);
        }
    }
    k
}

/// The definitions sorted by name (stably).
pub fn sort_by_name(defs: &[ToolDefinition]) -> (r: Vec<ToolDefinition>)
    ensures
        r@ == sorted_by_name(defs@),
{
    let mut t: Vec<ToolDefinition> = Vec::new();
    let mut i: usize = 0;
    while i < defs.len()
        invariant
            i <= defs@.len(),
            t@ == sorted_by_name(defs@.take(i as int)),
        decreases defs@.len() - i,
    {
        let k = insert_position(&t, defs[i].name.as_str());
        proof {
            lemma_leading_bound(t@, defs@[i as int].name@);
            assert(defs@.take(i + 1).drop_last() =~= defs@.take(i as int));
            assert(defs@.take(i + 1).last() == defs@[i as int]);
        }
        let ghost t0 = t@;
        t.insert(k, clone_def(&defs[i]));
        proof {
            assert(t@ =~= t0.subrange(0, k as int) + seq![defs@[i as int]] + t0.subrange(k as int, t0.len() as int));
        }
        i += 1;
    }
    assert(defs@.take(defs@.len() as int) =~= defs@);
    t
}

/// A copy of a definition.
pub fn clone_def(d: &ToolDefinition) -> (r: ToolDefinition)
    ensures
        r == *d,
{
    ToolDefinition {
        name: d.name.clone(),
        description: d.description.clone(),
        parameters: d.parameters.clone(),
        requires_confirmation: d.requires_confirmation,
    }
}

/// The hash of a set of tool definitions, for drift detection: FNV-1a of
/// the UTF-8 bytes of their text, in order of name.
pub fn hash_tool_definitions(definitions: &[ToolDefinition]) -> (h: u64)
    ensures
        h == fnv1a_spec(encode_utf8(definitions_text(sorted_by_name(definitions@)))),
{
    let sorted = sort_by_name(definitions);
    let mut combined = String::new();
    let mut i: usize = 0;
    while i < sorted.len()
        invariant
            i <= sorted@.len(),
            combined@ == definitions_text(sorted@.take(i as int)),
        decreases sorted@.len() - i,
    {
        proof {
            assert(sorted@.take(i + 1).drop_last() =~= sorted@.take(i as int));
            assert(sorted@.take(i + 1).last() == sorted@[i as int]);
            if i == 0 {
                assert(sorted@.take(0).len() == 0);
            }
        }
        if i > 0 {
            combined.push('|');
        }
        combined.push_str(sorted[i].name.as_str());
        combined.push(':');
        combined.push_str(sorted[i].description.as_str());
        combined.push(':');
        combined.push_str(sorted[i].parameters.as_str());
        proof {
            reveal_strlit("|");
            reveal_strlit(":");
            let one = sorted@[i as int].name@ + ":"@ + sorted@[i as int].description@ + ":"@ + sorted@[i as int].parameters@;
            if i == 0 {
                assert(combined@ =~= one);
            } else {
                assert(combined@ =~= definitions_text(sorted@.take(i as int)) + "|"@ + one);
            }
        }
        i += 1;
    }
    assert(sorted@.take(sorted@.len() as int) =~= sorted@);
    fnv1a_hash(combined.as_str().as_bytes())
}

/// `text_lt` never holds of a text and itself.
pub(crate) proof fn lemma_text_lt_irreflexive(a: Seq<char>)
    ensures
        !text_lt(a, a),
    decreases a.len(),
{
    if a.len() > 0 {
        lemma_text_lt_irreflexive(a.subrange(1, a.len() as int));
    }
}

/// `text_lt` is transitive.
pub(crate) proof fn lemma_text_lt_transitive(a: Seq<char>, b: Seq<char>, c: Seq<char>)
    requires
        text_lt(a, b),
        text_lt(b, c),
    ensures
        text_lt(a, c),
    decreases a.len(),
{
    if a.len() > 0 && a[0] == b[0] && b[0] == c[0] {
        lemma_text_lt_transitive(
            a.subrange(1, a.len() as int),
            b.subrange(1, b.len() as int),
            c.subrange(1, c.len() as int),
        );
    }
}

/// Of two different texts, one sorts before the other.
pub(crate) proof fn lemma_text_lt_total(a: Seq<char>, b: Seq<char>)
    ensures
        a == b || text_lt(a, b) || text_lt(b, a),
    decreases a.len(),
{
    if a.len() == 0 && b.len() == 0 {
        assert(a =~= b);
    } else if a.len() > 0 && b.len() > 0 && a[0] == b[0] {
        let ta = a.subrange(1, a.len() as int);
        let tb = b.subrange(1, b.len() as int);
        if ta == tb {
            assert(a =~= seq![a[0]] + ta);
            assert(b =~= seq![b[0]] + tb);
        }
        lemma_text_lt_total(ta, tb);
    }
}

/// No two definitions share a name.
pub open spec fn distinct_names(s: Seq<ToolDefinition>) -> bool {
    forall|i: int, j: int| 0 <= i < j < s.len() ==> s[i].name@ != s[j].name@
}

/// The names strictly increase along the sequence.
pub open spec fn names_increasing(t: Seq<ToolDefinition>) -> bool {
    forall|i: int, j: int| 0 <= i < j < t.len() ==> text_lt(#[trigger] t[i].name@, #[trigger] t[j].name@)
}

/// What the insertion position separates: names that do not sort after
/// the new one, then (if any) one that does.
proof fn lemma_leading_split(t: Seq<ToolDefinition>, name: Seq<char>)
    ensures
        leading_not_after(t, name) <= t.len(),
        forall|j: int| 0 <= j < leading_not_after(t, name) ==> !text_lt(name, #[trigger] t[j].name@),
        leading_not_after(t, name) < t.len() ==> text_lt(name, t[leading_not_after(t, name) as int].name@),
    decreases t.len(),
{
    if t.len() > 0 && !text_lt(name, t[0].name@) {
        let r = t.subrange(1, t.len() as int);
        lemma_leading_split(r, name);
        assert forall|j: int| 0 <= j < leading_not_after(t, name) implies !text_lt(name, #[trigger] t[j].name@) by {
            if j > 0 {
                assert(t[j] == r[j - 1]);
            }
        }
    }
}

/// Sorting keeps the definitions, each as often as it occurs.
proof fn lemma_sorted_same_items(s: Seq<ToolDefinition>)
    ensures
        sorted_by_name(s).to_multiset() =~= s.to_multiset(),
    decreases s.len(),
{
    broadcast use vstd::seq_lib::group_to_multiset_ensures;
    broadcast use vstd::multiset::group_multiset_axioms;

    if s.len() > 0 {
        let t = sorted_by_name(s.drop_last());
        let x = s.last();
        let k = leading_not_after(t, x.name@) as int;
        lemma_sorted_same_items(s.drop_last());
        lemma_leading_bound(t, x.name@);
        let lo = t.subrange(0, k);
        let hi = t.subrange(k, t.len() as int);
        vstd::seq_lib::lemma_multiset_commutative(lo, seq![x]);
        vstd::seq_lib::lemma_multiset_commutative(lo + seq![x], hi);
        vstd::seq_lib::lemma_multiset_commutative(lo, hi);
        assert(lo + hi =~= t);
        assert(seq![x].to_multiset() =~= Multiset::empty().insert(x)) by {
            assert(seq![x] =~= Seq::<ToolDefinition>::empty().push(x));
        }
        assert(s.drop_last().push(x) =~= s);
    }
}

/// Sorting definitions whose names are distinct puts the names in
/// strictly increasing order.
proof fn lemma_sorted_increasing(s: Seq<ToolDefinition>)
    requires
        distinct_names(s),
    ensures
        names_increasing(sorted_by_name(s)),
    decreases s.len(),
{
    broadcast use vstd::seq_lib::group_to_multiset_ensures;

    if s.len() > 0 {
        let d = s.drop_last();
        let t = sorted_by_name(d);
        let x = s.last();
        let n = x.name@;
        let k = leading_not_after(t, n) as int;
        lemma_sorted_increasing(d);
        lemma_sorted_same_items(d);
        lemma_leading_split(t, n);
        assert forall|j: int| 0 <= j < t.len() implies #[trigger] t[j].name@ != n by {
            assert(t.to_multiset().count(t[j]) > 0);
            assert(d.contains(t[j]));
            let i = choose|i: int| 0 <= i < d.len() && d[i] == t[j];
            assert(s[i] == d[i]);
        }
        let r = sorted_by_name(s);
        assert(r =~= t.subrange(0, k) + seq![x] + t.subrange(k, t.len() as int));
        assert forall|i: int, j: int| 0 <= i < j < r.len() implies text_lt(#[trigger] r[i].name@, #[trigger] r[j].name@) by {
            if j < k {
                assert(r[i] == t[i] && r[j] == t[j]);
            } else if j == k {
                assert(r[i] == t[i] && r[j] == x);
                lemma_text_lt_total(t[i].name@, n);
            } else if i < k {
                assert(r[i] == t[i] && r[j] == t[j - 1]);
            } else if i == k {
                assert(r[i] == x && r[j] == t[j - 1]);
                if j - 1 > k {
                    lemma_text_lt_transitive(n, t[k].name@, t[j - 1].name@);
                }
            } else {
                assert(r[i] == t[i - 1] && r[j] == t[j - 1]);
            }
        }
    }
}

/// Two sequences with the same definitions, each in strictly increasing
/// order of name, are the same sequence.
proof fn lemma_increasing_unique(x: Seq<ToolDefinition>, y: Seq<ToolDefinition>)
    requires
        names_increasing(x),
        names_increasing(y),
        x.to_multiset() == y.to_multiset(),
    ensures
        x == y,
    decreases x.len(),
{
    broadcast use vstd::seq_lib::group_to_multiset_ensures;
    broadcast use vstd::multiset::group_multiset_axioms;

    if x.len() > 0 && y.len() > 0 {
        assert(x.to_multiset().count(x[0]) > 0);
        assert(y.to_multiset().count(y[0]) > 0);
        let j = choose|j: int| 0 <= j < y.len() && y[j] == x[0];
        let i = choose|i: int| 0 <= i < x.len() && x[i] == y[0];
        if j != 0 {
            lemma_text_lt_irreflexive(y[0].name@);
            if i != 0 {
                lemma_text_lt_transitive(y[0].name@, x[0].name@, y[0].name@);
            }
        }
        assert(x[0] == y[0]);
        assert(x.drop_first().to_multiset() =~= x.to_multiset().remove(x[0])) by {
            assert(x.drop_first() =~= x.remove(0));
        }
        assert(y.drop_first().to_multiset() =~= y.to_multiset().remove(y[0])) by {
            assert(y.drop_first() =~= y.remove(0));
        }
        assert forall|a: int, b: int| 0 <= a < b < x.len() - 1 implies text_lt(
            #[trigger] x.drop_first()[a].name@,
            #[trigger] x.drop_first()[b].name@,
        ) by {
            assert(x.drop_first()[a] == x[a + 1] && x.drop_first()[b] == x[b + 1]);
        }
        assert forall|a: int, b: int| 0 <= a < b < y.len() - 1 implies text_lt(
            #[trigger] y.drop_first()[a].name@,
            #[trigger] y.drop_first()[b].name@,
        ) by {
            assert(y.drop_first()[a] == y[a + 1] && y.drop_first()[b] == y[b + 1]);
        }
        lemma_increasing_unique(x.drop_first(), y.drop_first());
        assert(x =~= seq![x[0]] + x.drop_first());
        assert(y =~= seq![y[0]] + y.drop_first());
    } else {
        assert(x.len() == x.to_multiset().len());
        assert(y.len() == y.to_multiset().len());
        assert(x =~= y);
    }
}

/// The hash of a set of tool definitions does not depend on the order in
/// which they are given: two sequences holding the same definitions, no
/// two of which share a name, hash alike.
pub proof fn law_tool_hash_ignores_order(a: Seq<ToolDefinition>, b: Seq<ToolDefinition>)
    requires
        a.to_multiset() == b.to_multiset(),
        distinct_names(a),
    ensures
        sorted_by_name(a) == sorted_by_name(b),
        fnv1a_spec(encode_utf8(definitions_text(sorted_by_name(a))))
            == fnv1a_spec(encode_utf8(definitions_text(sorted_by_name(b)))),
{
    broadcast use vstd::seq_lib::group_to_multiset_ensures;
    broadcast use vstd::multiset::group_multiset_axioms;

    assert(a.no_duplicates()) by {
        assert forall|i: int, j: int| 0 <= i < a.len() && 0 <= j < a.len() && i != j implies a[i] != a[j] by {
            if i < j {
                assert(a[i].name@ != a[j].name@);
            } else {
                assert(a[j].name@ != a[i].name@);
            }
        }
    }
    a.lemma_multiset_has_no_duplicates();
    b.lemma_multiset_has_no_duplicates_conv();
    assert forall|i: int, j: int| 0 <= i < j < b.len() implies b[i].name@ != b[j].name@ by {
        assert(b.to_multiset().count(b[i]) > 0);
        assert(b.to_multiset().count(b[j]) > 0);
        let p = choose|p: int| 0 <= p < a.len() && a[p] == b[i];
        let q = choose|q: int| 0 <= q < a.len() && a[q] == b[j];
        assert(b[i] != b[j]);
        if p < q {
            assert(a[p].name@ != a[q].name@);
        } else {
            assert(a[q].name@ != a[p].name@);
        }
    }
    lemma_sorted_increasing(a);
    lemma_sorted_increasing(b);
    lemma_sorted_same_items(a);
    lemma_sorted_same_items(b);
    lemma_increasing_unique(sorted_by_name(a), sorted_by_name(b));
}

/// What kind of JSON value an argument is (for a number, whether it is
/// integral).
#[derive(Clone, Copy, Debug, PartialEq, Eq, Structural)]
pub enum ArgKind {
    Str,
    Number { integral: bool },
    Bool,
    Array,
    Object,
    Null,
}

/// The kind of the first argument with a name, if any.
pub open spec fn arg_kind(args: Seq<(String, ArgKind)>, k: Seq<char>) -> Option<ArgKind>
    decreases args.len(),
{
    if args.len() == 0 {
        None
    } else if args[0].0@ == k {
        Some(args[0].1)
    } else {
        arg_kind(args.subrange(1, args.len() as int), k)
    }
}

/// The type name a value of a kind shows against an expected type: a
/// number is an `integer` when one is expected and it is integral.
pub open spec fn actual_type(kind: ArgKind, expected: Seq<char>) -> Seq<char> {
    match kind {
        ArgKind::Str => "string"@,
        ArgKind::Number { integral } => if expected == "integer"@ && integral { "integer"@ } else { "number"@ },
        ArgKind::Bool => "boolean"@,
        ArgKind::Array => "array"@,
        ArgKind::Object => "object"@,
        ArgKind::Null => "null"@,
    }
}

/// The errors for required fields that are missing, in the order
/// required.
pub open spec fn missing_errors(required: Seq<String>, args: Seq<(String, ArgKind)>) -> Seq<Seq<char>>
    decreases required.len(),
{
    if required.len() == 0 {
        Seq::empty()
    } else {
        let rest = missing_errors(required.drop_last(), args);
        let r = required.last()@;
        if arg_kind(args, r) is None {
            rest.push("missing required field '"@ + r + "'"@)
        } else {
            rest
        }
    }
}

/// The errors for provided fields whose kind does not match the type
/// their property declares (a property that declares none is not
/// checked), in the order of the properties.
pub open spec fn type_errors(props: Seq<(String, Option<String>)>, args: Seq<(String, ArgKind)>) -> Seq<Seq<char>>
    decreases props.len(),
{
    if props.len() == 0 {
        Seq::empty()
    } else {
        let rest = type_errors(props.drop_last(), args);
        let key = props.last().0@;
        match (props.last().1, arg_kind(args, key)) {
            (Some(t), Some(kind)) => {
                let actual = actual_type(kind, t@);
                if actual == t@ || (t@ == "number"@ && actual == "integer"@) {
                    rest
                } else {
                    rest.push("field '"@ + key + "': expected type '"@ + t@ + "', got '"@ + actual + "'"@)
                }
            },
            _ => rest,
        }
    }
}

/// The errors of a call's arguments against its schema: none unless the
/// schema describes an object; then the arguments must be an object, with
/// the required fields present and the declared types matched.
pub open spec fn argument_errors(
    object_schema: bool,
    args: Option<Seq<(String, ArgKind)>>,
    required: Seq<String>,
    props: Seq<(String, Option<String>)>,
) -> Seq<Seq<char>> {
    if !object_schema {
        Seq::empty()
    } else {
        match args {
            None => seq!["arguments must be a JSON object"@],
            Some(a) => missing_errors(required, a) + type_errors(props, a),
        }
    }
}

/// Whether a value of a kind is an instance of the JSON Schema type named
/// `t`: each kind is the type of its own name, and an integral number is
/// an `integer` as well as a `number`.
pub open spec fn kind_has_type(kind: ArgKind, t: Seq<char>) -> bool {
    match kind {
        ArgKind::Str => t == "string"@,
        ArgKind::Number { integral } => t == "number"@ || (integral && t == "integer"@),
        ArgKind::Bool => t == "boolean"@,
        ArgKind::Array => t == "array"@,
        ArgKind::Object => t == "object"@,
        ArgKind::Null => t == "null"@,
    }
}

/// A declared type is checked the JSON Schema way: a property that
/// declares type `t` adds no error for an argument that is a `t`, and
/// otherwise adds one error, which names the property, the type expected
/// and, as the type the argument got, a type the argument is.
pub proof fn law_declared_type_checked_by_kind(
    props: Seq<(String, Option<String>)>,
    args: Seq<(String, ArgKind)>,
    key: String,
    t: String,
)
    requires
        arg_kind(args, key@) is Some,
    ensures
        ({
            let kind = arg_kind(args, key@)->0;
            let before = type_errors(props, args);
            let after = type_errors(props.push((key, Some(t))), args);
            &&& kind_has_type(kind, t@) ==> after == before
            &&& !kind_has_type(kind, t@) ==> exists|got: Seq<char>|
                #[trigger] kind_has_type(kind, got) && after == before.push(
                    "field '"@ + key@ + "': expected type '"@ + t@ + "', got '"@ + got + "'"@,
                )
        }),
{
    let all = props.push((key, Some(t)));
    assert(all.drop_last() =~= props);
    assert(all.last() == (key, Some(t)));
    let kind = arg_kind(args, key@)->0;
    let actual = actual_type(kind, t@);
    reveal_strlit("string");
    reveal_strlit("number");
    reveal_strlit("integer");
    reveal_strlit("boolean");
    reveal_strlit("array");
    reveal_strlit("object");
    reveal_strlit("null");
    assert("boolean"@[0] != "integer"@[0]);
    assert("string"@.len() != "integer"@.len());
    assert("number"@.len() != "integer"@.len());
    assert("array"@.len() != "integer"@.len());
    assert("object"@.len() != "integer"@.len());
    assert("null"@.len() != "integer"@.len());
    assert((actual == t@ || (t@ == "number"@ && actual == "integer"@)) <==> kind_has_type(kind, t@));
    assert(kind_has_type(kind, actual)) by {
        if kind is Number {
            if actual == "integer"@ {
                assert(t@ == "integer"@);
            }
        }
    }
}

/// The arguments' kinds as a sequence, when they are an object.
pub open spec fn args_view(args: Option<Vec<(String, ArgKind)>>) -> Option<Seq<(String, ArgKind)>> {
    match args {
        Some(a) => Some(a@),
        None => None,
    }
}

/// The kind of the first argument with a name.
fn find_kind(args: &Vec<(String, ArgKind)>, k: &str) -> (r: Option<ArgKind>)
    ensures
        r == arg_kind(args@, k@),
{
    let mut i: usize = 0;
    assert(args@.subrange(0, args@.len() as int) =~= args@);
    while i < args.len()
        invariant
            i <= args@.len(),
            arg_kind(args@, k@) == arg_kind(args@.subrange(i as int, args@.len() as int), k@),
        decreases args@.len() - i,
    {
        proof {
            let r = args@.subrange(i as int, args@.len() as int);
            assert(r.subrange(1, r.len() as int) =~= args@.subrange(i + 1, args@.len() as int));
            assert(r[0] == args@[i as int]);
        }
        if crate::replay::str_eq(args[i].0.as_str(), k) {
            return Some(args[i].1);
        }
        i += 1;
    }
    None
}

/// Check a call's arguments against its tool's parameter schema, given
/// whether the schema describes an object, the arguments' kinds by name
/// (`None` when the arguments are not an object), the required field
/// names, and each property with the type it declares.
pub fn check_arguments(
    object_schema: bool,
    args: Option<Vec<(String, ArgKind)>>,
    required: &Vec<String>,
    props: &Vec<(String, Option<String>)>,
) -> (r: Result<(), Vec<String>>)
    ensures
        match r {
            Ok(()) => argument_errors(object_schema, args_view(args), required@, props@).len() == 0,
            Err(v) => v@.len() > 0 && v@.map_values(|x: String| x@) == argument_errors(object_schema, args_view(args), required@, props@),
        },
{
    if !object_schema {
        return Ok(());
    }
    let a = match args {
        Some(a) => a,
        None => {
            let mut v: Vec<String> = Vec::new();
            v.push("arguments must be a JSON object".to_string());
            assert(v@.map_values(|x: String| x@) =~= seq!["arguments must be a JSON object"@]);
            return Err(v);
        },
    };
    let mut errors: Vec<String> = Vec::new();
    let mut i: usize = 0;
    while i < required.len()
        invariant
            i <= required@.len(),
            errors@.map_values(|x: String| x@) == missing_errors(required@.take(i as int), a@),
        decreases required@.len() - i,
    {
        proof {
            assert(required@.take(i + 1).drop_last() =~= required@.take(i as int));
            assert(required@.take(i + 1).last() == required@[i as int]);
        }
        if find_kind(&a, required[i].as_str()).is_none() {
            let mut m = "missing required field '".to_string();
            m.push_str(required[i].as_str());
            m.push_str("'");
            let ghost before = errors@;
            errors.push(m);
            assert(errors@.map_values(|x: String| x@) =~= before.map_values(|x: String| x@).push(m@));
        }
        i += 1;
    }
    assert(required@.take(required@.len() as int) =~= required@);
    let ghost missing = errors@.map_values(|x: String| x@);
    let mut j: usize = 0;
    while j < props.len()
        invariant
            j <= props@.len(),
            missing == missing_errors(required@, a@),
            errors@.map_values(|x: String| x@) == missing + type_errors(props@.take(j as int), a@),
        decreases props@.len() - j,
    {
        proof {
            assert(props@.take(j + 1).drop_last() =~= props@.take(j as int));
            assert(props@.take(j + 1).last() == props@[j as int]);
        }
        let key = props[j].0.as_str();
        if let Some(t) = &props[j].1 {
            if let Some(kind) = find_kind(&a, key) {
                let actual: &str = match kind {
                    ArgKind::Str => "string",
                    ArgKind::Number { integral } => if crate::replay::str_eq(t.as_str(), "integer") && integral { "integer" } else { "number" },
                    ArgKind::Bool => "boolean",
                    ArgKind::Array => "array",
                    ArgKind::Object => "object",
                    ArgKind::Null => "null",
                };
                assert(actual@ == actual_type(kind, t@));
                if !(crate::replay::str_eq(actual, t.as_str()) || (crate::replay::str_eq(t.as_str(), "number") && crate::replay::str_eq(actual, "integer"))) {
                    let mut m = "field '".to_string();
                    m.push_str(key);
                    m.push_str("': expected type '");
                    m.push_str(t.as_str());
                    m.push_str("', got '");
                    m.push_str(actual);
                    m.push_str("'");
                    let ghost before = errors@;
                    errors.push(m);
                    assert(errors@.map_values(|x: String| x@) =~= before.map_values(|x: String| x@).push(m@));
                }
            }
        }
        j += 1;
    }
    assert(props@.take(props@.len() as int) =~= props@);
    if errors.len() == 0 {
        Ok(())
    } else {
        Err(errors)
    }
}

/// The index of the first definition with a name.
pub fn find_definition(defs: &[ToolDefinition], name: &str) -> (r: Option<usize>)
    ensures
        match r {
            Some(i) => i < defs@.len() && defs@[i as int].name@ == name@
                && forall|j: int| 0 <= j < i ==> (#[trigger] defs@[j]).name@ != name@,
            None => forall|j: int| 0 <= j < defs@.len() ==> (#[trigger] defs@[j]).name@ != name@,
        },
{
    let mut i: usize = 0;
    while i < defs.len()
        invariant
            i <= defs@.len(),
            forall|j: int| 0 <= j < i ==> (#[trigger] defs@[j]).name@ != name@,
        decreases defs@.len() - i,
    {
        if crate::replay::str_eq(defs[i].name.as_str(), name) {
            return Some(i);
        }
        i += 1;
    }
    None
}

/// Whether the first definition with a name needs confirmation (a name
/// with no definition does not).
pub fn requires_confirmation(defs: &[ToolDefinition], name: &str) -> (r: bool)
    ensures
        r == exists|i: int| 0 <= i < defs@.len() && defs@[i].name@ == name@ && defs@[i].requires_confirmation
            && forall|j: int| 0 <= j < i ==> (#[trigger] defs@[j]).name@ != name@,
{
    match find_definition(defs, name) {
        Some(i) => defs[i].requires_confirmation,
        None => false,
    }
}

/// A tool handler that runs an external process: JSON arguments on its
/// stdin, a JSON result on its stdout.
pub struct ProcessToolHandler {
    /// Path to the executable.
    pub command: String,
    /// Arguments to pass to the command.
    pub args: Vec<String>,
    /// Working directory.
    pub cwd: Option<String>,
    /// Environment variables.
    pub env: HashMap<String, String>,
    /// Timeout in seconds.
    pub timeout_secs: u64,
}

impl ProcessToolHandler {
    /// A handler for a command, with no arguments, working directory or
    /// environment, and a 30-second timeout.
    pub fn new(command: String) -> (h: Self)
        ensures
            h.command == command,
            h.args@.len() == 0,
            h.cwd is None,
            h.env@ == Map::<String, String>::empty(),
            h.timeout_secs == 30,
    {
        ProcessToolHandler { command, args: Vec::new(), cwd: None, env: HashMap::new(), timeout_secs: 30 }
    }

    /// The handler with arguments.
    pub fn with_args(self, args: Vec<String>) -> (h: Self)
        ensures
            h == (ProcessToolHandler { args, ..self }),
    {
        ProcessToolHandler { args, ..self }
    }

    /// The handler with a working directory.
    pub fn with_cwd(self, cwd: String) -> (h: Self)
        ensures
            h == (ProcessToolHandler { cwd: Some(cwd), ..self }),
    {
        ProcessToolHandler { cwd: Some(cwd), ..self }
    }

    /// The handler with a timeout in seconds.
    pub fn with_timeout(self, secs: u64) -> (h: Self)
        ensures
            h == (ProcessToolHandler { timeout_secs: secs, ..self }),
    {
        ProcessToolHandler { timeout_secs: secs, ..self }
    }
}

} // verus!
