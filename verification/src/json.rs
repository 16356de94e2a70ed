//! JSON documents as plain values, and their text.
//!
//! Parsing and printing are `serde_json`'s work.  Its `Value` is opaque to the
//! proofs, so the logic of this crate works on [`Json`], which holds the same
//! document as plain values.  The crate is used with its default features: its
//! numbers have three forms, and its objects keep their members sorted by key,
//! so that the text of a document depends on what the document means alone.
use crate::double::{is_finite, nearest, one, rounding_is_unique, rounds_to, SIGN};
use serde_json::Value;
use vstd::prelude::*;
use vstd::utf8::encode_utf8;

verus! {

/// A JSON number, in one of the three ways in which it can be held.
#[derive(Clone, Copy, Debug, PartialEq, Eq, Structural)]
pub enum Number {
    /// An integer that is not negative.
    Unsigned(u64),
    /// A negative integer.
    Negative(i64),
    /// Anything else, as the bits of a double.
    Double(u64),
}

/// A JSON document.
#[derive(Debug, PartialEq)]
pub enum Json {
    Null,
    Bool(bool),
    Number(Number),
    Text(String),
    Array(Vec<Json>),
    /// The members; of several with one key the last one counts.
    Object(Vec<(String, Json)>),
}

/// What a JSON document means: the members of an object have no order.
pub enum Tree {
    Null,
    Bool(bool),
    Number(Number),
    Text(Seq<char>),
    Array(Seq<Tree>),
    Object(Map<Seq<char>, Tree>),
}

impl Json {
    /// The meaning of this document.
    pub open spec fn tree(self) -> Tree
        decreases self,
    {
        match self {
            Json::Null => Tree::Null,
            Json::Bool(b) => Tree::Bool(b),
            Json::Number(n) => Tree::Number(n),
            Json::Text(s) => Tree::Text(s@),
            Json::Array(items) => Tree::Array(
                Seq::new(
                    items@.len(),
                    |i: int|
                        if 0 <= i < items@.len() {
                            items@[i].tree()
                        } else {
                            Tree::Null
                        },
                ),
            ),
            Json::Object(entries) => Tree::Object(members(entries@)),
        }
    }
}

impl View for Json {
    type V = Tree;

    open spec fn view(&self) -> Tree {
        self.tree()
    }
}

/// The members that a list of keys and values amounts to.
pub open spec fn members(entries: Seq<(String, Json)>) -> Map<Seq<char>, Tree>
    decreases entries,
{
    if entries.len() == 0 {
        Map::empty()
    } else {
        members(entries.drop_last()).insert(entries.last().0@, entries.last().1.tree())
    }
}

/// The member of `tree` under `key`; there is none where `tree` is no object.
pub open spec fn member(tree: Tree, key: Seq<char>) -> Option<Tree> {
    match tree {
        Tree::Object(m) => if m.dom().contains(key) {
            Some(m[key])
        } else {
            None
        },
        _ => None,
    }
}

/// The member under `key` of a tree that may be missing.
pub open spec fn member_of(tree: Option<Tree>, key: Seq<char>) -> Option<Tree> {
    match tree {
        Some(t) => member(t, key),
        None => None,
    }
}

/// The integer that `tree` holds, where it holds one that fits in an `i64`.
pub open spec fn integer(tree: Tree) -> Option<i64> {
    match tree {
        Tree::Number(Number::Unsigned(n)) => if n <= i64::MAX {
            Some(n as i64)
        } else {
            None
        },
        Tree::Number(Number::Negative(n)) => Some(n),
        _ => None,
    }
}

/// `bits` is the double nearest to the integer `n`.
pub open spec fn is_double_of(bits: u64, n: int) -> bool {
    if n < 0 {
        bits >= SIGN && rounds_to((bits - SIGN) as nat, ((-n) as nat) * one(), 1)
    } else {
        rounds_to(bits as nat, (n as nat) * one(), 1)
    }
}

/// The bits of the double nearest to the integer `n`.
pub open spec fn double_of(n: int) -> u64 {
    if n < 0 {
        (SIGN + nearest(((-n) as nat) * one(), 1)) as u64
    } else {
        nearest((n as nat) * one(), 1) as u64
    }
}

/// The double that `tree` holds or that is nearest to the integer it holds.
pub open spec fn double(tree: Tree) -> Option<u64> {
    match tree {
        Tree::Number(Number::Unsigned(n)) => Some(double_of(n as int)),
        Tree::Number(Number::Negative(n)) => Some(double_of(n as int)),
        Tree::Number(Number::Double(bits)) => Some(bits),
        _ => None,
    }
}

/// Every number in the document is held as its kind demands: the doubles are
/// finite, the negative integers negative.
pub open spec fn well_formed(j: Json) -> bool
    decreases j,
{
    match j {
        Json::Number(Number::Negative(n)) => n < 0,
        Json::Number(Number::Double(bits)) => is_finite(bits),
        Json::Array(items) => forall|i: int| 0 <= i < items@.len() ==> well_formed(#[trigger] items@[i]),
        Json::Object(entries) => forall|i: int|
            0 <= i < entries@.len() ==> well_formed((#[trigger] entries@[i]).1),
        _ => true,
    }
}

/// No number in the document is held as a double.
pub open spec fn integral(j: Json) -> bool
    decreases j,
{
    match j {
        Json::Number(Number::Double(_)) => false,
        Json::Array(items) => forall|i: int| 0 <= i < items@.len() ==> integral(#[trigger] items@[i]),
        Json::Object(entries) => forall|i: int| 0 <= i < entries@.len() ==> integral((#[trigger] entries@[i]).1),
        _ => true,
    }
}

/// No object in the document has two members with one key.
pub open spec fn distinct(j: Json) -> bool
    decreases j,
{
    match j {
        Json::Array(items) => forall|i: int| 0 <= i < items@.len() ==> distinct(#[trigger] items@[i]),
        Json::Object(entries) => {
            &&& forall|i: int, k: int|
                0 <= i < k < entries@.len() ==> (#[trigger] entries@[i]).0@ != (#[trigger] entries@[k]).0@
            &&& forall|i: int| 0 <= i < entries@.len() ==> distinct((#[trigger] entries@[i]).1)
        },
        _ => true,
    }
}

/// How many arrays and objects may stand inside one another in a document that
/// is written.  Each level takes some of the stack, and `serde_json` reads no
/// more levels than these, so that whatever was read is within the limit.
pub const MAX_NESTING: usize = 127;

/// At most `limit` arrays and objects stand inside one another.
pub open spec fn nested_within(j: Json, limit: nat) -> bool
    decreases j,
{
    match j {
        Json::Array(items) => limit > 0 && forall|i: int|
            0 <= i < items@.len() ==> nested_within(#[trigger] items@[i], (limit - 1) as nat),
        Json::Object(entries) => limit > 0 && forall|i: int|
            0 <= i < entries@.len() ==> nested_within((#[trigger] entries@[i]).1, (limit - 1) as nat),
        _ => true,
    }
}

/// A document that holds no doubles, whose numbers are held as their kinds
/// demand, in which no key is repeated, and which is nested within `limit`.
pub open spec fn writable_within(j: Json, limit: nat) -> bool {
    &&& integral(j)
    &&& well_formed(j)
    &&& distinct(j)
    &&& nested_within(j, limit)
}

/// Whether a document can be written.
pub open spec fn writable(j: Json) -> bool {
    writable_within(j, MAX_NESTING as nat)
}

/// What is nested within a limit is nested within a larger one.
pub proof fn nesting_is_monotone(j: Json, a: nat, b: nat)
    requires
        nested_within(j, a),
        a <= b,
    ensures
        nested_within(j, b),
    decreases j,
{
    match j {
        Json::Array(items) => {
            assert forall|i: int| 0 <= i < items@.len() implies nested_within(
                #[trigger] items@[i],
                (b - 1) as nat,
            ) by {
                nesting_is_monotone(items@[i], (a - 1) as nat, (b - 1) as nat);
            }
        },
        Json::Object(entries) => {
            assert forall|i: int| 0 <= i < entries@.len() implies nested_within(
                (#[trigger] entries@[i]).1,
                (b - 1) as nat,
            ) by {
                nesting_is_monotone(entries@[i].1, (a - 1) as nat, (b - 1) as nat);
            }
        },
        _ => {},
    }
}

/// `serde_json`'s document type.
#[verifier::external_type_specification]
#[verifier::external_body]
pub struct ExValue(Value);

/// The document that a `serde_json::Value` holds.
pub uninterp spec fn value_tree(v: serde_json::Value) -> Tree;

/// What `serde_json::from_str` makes of a text: the document, or the text of
/// the error.
pub uninterp spec fn parsed(text: Seq<char>) -> Result<Tree, Seq<char>>;

/// The compact text that `serde_json` writes for a document.
pub uninterp spec fn compact(tree: Tree) -> Seq<char>;

/// Calls `serde_json::from_str`.  The outcome depends on the text alone; an
/// error is handed on as its message.
#[verifier::external_body]
fn parse_value(text: &str) -> (r: Result<Value, String>)
    ensures
        match r {
            Ok(v) => parsed(text@) == Ok::<Tree, Seq<char>>(value_tree(v)),
            Err(e) => parsed(text@) == Err::<Tree, Seq<char>>(e@),
        },
{
    match serde_json::from_str::<Value>(text) {
        Ok(v) => Ok(v),
        Err(e) => Err(e.to_string()),
    }
}

/// Takes a `serde_json::Value` apart, variant by variant.  A `Number` of that
/// crate is a `u64`, a negative `i64` or a finite double, which `as_u64`,
/// `as_i64` and `as_f64` tell apart in this order.
#[verifier::external_body]
fn json_of(v: Value) -> (r: Json)
    ensures
        r@ == value_tree(v),
        well_formed(r),
{
    match v {
        Value::Null => Json::Null,
        Value::Bool(b) => Json::Bool(b),
        Value::Number(n) => Json::Number(match (n.as_u64(), n.as_i64(), n.as_f64()) {
            (Some(u), _, _) => Number::Unsigned(u),
            (_, Some(i), _) => Number::Negative(i),
            (_, _, x) => Number::Double(x.unwrap_or_default().to_bits())
        }),
        Value::String(s) => Json::Text(s),
        Value::Array(items) => Json::Array(items.into_iter().map(json_of).collect()),
        Value::Object(map) => Json::Object(map.into_iter().map(|(k, x)| (k, json_of(x))).collect())
    }
}

/// Puts a document together as a `serde_json::Value`, variant by variant.  The
/// members of an object are collected into `serde_json`'s map, each under its
/// own key.
#[verifier::external_body]
fn value_of(j: &Json) -> (r: Value)
    requires
        writable(*j),
    ensures
        value_tree(r) == j@,
{
    match j {
        Json::Null | Json::Number(Number::Double(_)) => Value::Null,
        Json::Bool(b) => Value::from(*b),
        Json::Number(Number::Unsigned(u)) => Value::from(*u),
        Json::Number(Number::Negative(i)) => Value::from(*i),
        Json::Text(s) => Value::from(s.clone()),
        Json::Array(items) => Value::Array(items.iter().map(value_of).collect()),
        Json::Object(entries) => Value::Object(entries.iter().map(|(k, x)| (k.clone(), value_of(x))).collect()),
    }
}

/// Calls `serde_json::to_vec`: the UTF-8 bytes of the compact text.  Writing a
/// `Value` to memory cannot fail, and every control character inside a string
/// is escaped, so the text is a single line.
#[verifier::external_body]
fn value_bytes(v: &Value) -> (r: Result<Vec<u8>, String>)
    ensures
        r is Ok,
        r->Ok_0@ == encode_utf8(compact(value_tree(*v))),
        !r->Ok_0@.contains(0x0A),
{
    match serde_json::to_vec(v) {
        Ok(bytes) => Ok(bytes),
        Err(e) => Err(e.to_string()),
    }
}

/// Calls `serde_json::Value::get` with a string: the member of an object under
/// that key; none where there is none, or where the value is no object.
#[verifier::external_body]
fn value_member<'a>(v: &'a Value, key: &str) -> (r: Option<&'a Value>)
    ensures
        match r {
            Some(x) => member(value_tree(*v), key@) == Some(value_tree(*x)),
            None => member(value_tree(*v), key@) is None,
        },
{
    v.get(key)
}

/// Prints a `serde_json::Value` by its `Display`, which writes the compact text
/// with the serializer that `serde_json::to_vec` uses.
#[verifier::external_body]
fn value_text(v: &Value) -> (r: String)
    ensures
        r@ == compact(value_tree(*v)),
{
    v.to_string()
}

/// Calls `serde_json::Number::as_f64` on an integer that such a number can
/// hold: the nearest double, ties to even.
#[verifier::external_body]
fn integer_as_double(n: i128) -> (r: Option<u64>)
    requires
        i64::MIN <= n <= u64::MAX,
    ensures
        r is Some,
        is_double_of(r->Some_0, n as int),
{
    match serde_json::Number::from_i128(n) {
        Some(number) => match number.as_f64() {
            Some(x) => Some(x.to_bits()),
            None => None,
        },
        None => None,
    }
}

/// Parses a text, and prints the member under `key` of the document.
pub fn parse(text: &str, key: &str) -> (r: Result<(Json, Option<String>), String>)
    ensures
        match r {
            Ok((j, printed)) => {
                &&& parsed(text@) == Ok::<Tree, Seq<char>>(j@)
                &&& well_formed(j)
                &&& match printed {
                    Some(p) => member(j@, key@) matches Some(t) && p@ == compact(t),
                    None => member(j@, key@) is None,
                }
            },
            Err(e) => parsed(text@) == Err::<Tree, Seq<char>>(e@),
        },
{
    match parse_value(text) {
        Ok(v) => {
            let printed = match value_member(&v, key) {
                Some(x) => Some(value_text(x)),
                None => None,
            };
            Ok((json_of(v), printed))
        },
        Err(e) => Err(e),
    }
}

/// Writes a document as one line of compact JSON, without the
/// line's end.
pub fn encode(j: &Json) -> (r: Result<Vec<u8>, String>)
    requires
        writable(*j),
    ensures
        r is Ok,
        r->Ok_0@ == encode_utf8(compact(j@)),
        !r->Ok_0@.contains(0x0A),
{
    let v = value_of(j);
    value_bytes(&v)
}

/// Where the entry that counts for `key` stands.
fn find(entries: &Vec<(String, Json)>, key: &str) -> (r: Option<usize>)
    ensures
        match r {
            Some(i) => {
                &&& i < entries@.len()
                &&& members(entries@).dom().contains(key@)
                &&& members(entries@)[key@] == entries@[i as int].1@
            },
            None => !members(entries@).dom().contains(key@),
        },
{
    let wanted = key.to_string();
    let mut i: usize = entries.len();
    proof {
        assert(entries@.take(i as int) =~= entries@);
    }
    while i > 0
        invariant
            i <= entries@.len(),
            wanted@ == key@,
            members(entries@).dom().contains(key@) == members(entries@.take(i as int)).dom().contains(key@),
            members(entries@)[key@] == members(entries@.take(i as int))[key@],
        decreases i,
    {
        proof {
            assert(entries@.take(i as int).drop_last() =~= entries@.take(i - 1));
            assert(entries@.take(i as int).last() == entries@[i - 1]);
        }
        i = i - 1;
        if entries[i].0 == wanted {
            return Some(i);
        }
    }
    None
}

impl Json {
    /// The member under `key`, where this is an object that has one.
    pub fn get(&self, key: &str) -> (r: Option<&Json>)
        ensures
            match r {
                Some(j) => member(self@, key@) == Some(j@) && (well_formed(*self) ==> well_formed(*j)),
                None => member(self@, key@) is None,
            },
    {
        match self {
            Json::Object(entries) => match find(entries, key) {
                Some(i) => Some(&entries[i].1),
                None => None,
            },
            _ => None,
        }
    }

    /// Like `get`, but hands the member over.
    pub fn into_member(self, key: &str) -> (r: Option<Json>)
        ensures
            match r {
                Some(j) => member(self@, key@) == Some(j@) && (well_formed(self) ==> well_formed(j)),
                None => member(self@, key@) is None,
            },
    {
        match self {
            Json::Object(entries) => {
                let mut entries = entries;
                match find(&entries, key) {
                    Some(i) => {
                        let entry = entries.swap_remove(i);
                        Some(entry.1)
                    },
                    None => None,
                }
            },
            _ => None,
        }
    }

    /// The integer that this is, where it fits in an `i64`.
    pub fn as_i64(&self) -> (r: Option<i64>)
        ensures
            r == integer(self@),
    {
        match self {
            Json::Number(Number::Unsigned(n)) => if *n <= i64::MAX as u64 {
                Some(*n as i64)
            } else {
                None
            },
            Json::Number(Number::Negative(n)) => Some(*n),
            _ => None,
        }
    }

    /// The number that this is, as the bits of a double.
    pub fn as_double(&self) -> (r: Option<u64>)
        ensures
            r == double(self@),
            well_formed(*self) ==> (r matches Some(bits) ==> is_finite(bits)),
    {
        match self {
            Json::Number(Number::Unsigned(n)) => nearest_double(*n as i128),
            Json::Number(Number::Negative(n)) => nearest_double(*n as i128),
            Json::Number(Number::Double(bits)) => Some(*bits),
            _ => None,
        }
    }
}

fn nearest_double(n: i128) -> (r: Option<u64>)
    requires
        i64::MIN <= n <= u64::MAX,
    ensures
        r == Some(double_of(n as int)),
        is_finite(r->Some_0),
{
    let r = integer_as_double(n);
    proof {
        let bits = r->Some_0;
        if n < 0 {
            let num: nat = ((-n) as nat) * one();
            rounding_is_unique((bits - SIGN) as nat, nearest(num, 1), num, 1);
        } else {
            let num: nat = (n as nat) * one();
            rounding_is_unique(bits as nat, nearest(num, 1), num, 1);
        }
    }
    r
}

} // verus!
