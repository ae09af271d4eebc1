//! Reading the fields of a request: the members of its JSON body that the
//! verb machines take.

use vstd::prelude::*;
use vstd::string::StrSliceExecFns;
use crate::dag::graph::texts;
use crate::proto::envelope::Envelope;

verus! {

/// The member `key` of a JSON text as `serde_json` reads the text, where the
/// text is an object and the member a string: the string's content; `None`
/// otherwise.
pub uninterp spec fn json_str_member(text: Seq<char>, key: Seq<char>) -> Option<Seq<char>>;

/// The member `key` of a JSON text as `serde_json` reads the text, where the
/// text is an object and the member an array: each element written back as
/// JSON text; `None` otherwise.
pub uninterp spec fn json_array_member(text: Seq<char>, key: Seq<char>) -> Option<Seq<Seq<char>>>;

/// The text of an optional string.
pub open spec fn opt_view(r: Option<String>) -> Option<Seq<char>> {
    match r {
        Some(s) => Some(s@),
        None => None,
    }
}

/// A string member of a JSON object.
///
/// Calls `serde_json::from_str` for a `serde_json::Value`, then
/// `Value::get(key)`, and takes the content of a `Value::String`. The result
/// is named, not spelled out.
#[verifier::external_body]
fn read_json_str_member(text: &str, key: &str) -> (r: Option<String>)
    ensures
        opt_view(r) == json_str_member(text@, key@),
{
    match serde_json::from_str::<serde_json::Value>(text) {
        Ok(v) => match v.get(key) {
            Some(serde_json::Value::String(s)) => Some(s.clone()),
            _ => None,
        },
        Err(_) => None,
    }
}

/// An array member of a JSON object, its elements as JSON texts.
///
/// Calls `serde_json::from_str` for a `serde_json::Value`, then
/// `Value::get(key)`, and writes each element of a `Value::Array` back with
/// `Value::to_string`. The result is named, not spelled out.
#[verifier::external_body]
fn read_json_array_member(text: &str, key: &str) -> (r: Option<Vec<String>>)
    ensures
        match r {
            Some(v) => json_array_member(text@, key@) == Some(texts(v@)),
            None => json_array_member(text@, key@) is None,
        },
{
    match serde_json::from_str::<serde_json::Value>(text) {
        Ok(v) => match v.get(key) {
            Some(serde_json::Value::Array(items)) => Some(items.iter().map(|x| x.to_string()).collect()),
            _ => None,
        },
        Err(_) => None,
    }
}

/// `s` is a non-empty run of decimal digits.
pub open spec fn is_digit_run(s: Seq<char>) -> bool {
    &&& s.len() > 0
    &&& forall|i: int| 0 <= i < s.len() ==> '0' <= #[trigger] s[i] && s[i] <= '9'
}

/// The number that the decimal digits `s` spell.
pub open spec fn decimal_number(s: Seq<char>) -> int
    decreases s.len(),
{
    if s.len() == 0 {
        0
    } else {
        decimal_number(s.drop_last()) * 10 + ((s.last() as int) - ('0' as int))
    }
}

/// The unsigned integer that the JSON text of a value holds: the number
/// where the text is a run of decimal digits within `u64`, as `serde_json`
/// writes a non-negative integer; `None` for any other value (a negative or
/// fractional number, a string, ...).
pub open spec fn json_u64(s: Seq<char>) -> Option<u64> {
    if is_digit_run(s) && decimal_number(s) <= u64::MAX {
        Some(decimal_number(s) as u64)
    } else {
        None
    }
}

/// The unsigned integers among the JSON texts `items`, in order.
pub open spec fn json_u64s(items: Seq<Seq<char>>) -> Seq<u64>
    decreases items.len(),
{
    if items.len() == 0 {
        Seq::empty()
    } else {
        let rest = json_u64s(items.drop_last());
        match json_u64(items.last()) {
            Some(n) => rest.push(n),
            None => rest,
        }
    }
}

proof fn lemma_decimal_number_grows(s: Seq<char>, k: int)
    requires
        0 <= k <= s.len(),
        forall|i: int| 0 <= i < s.len() ==> '0' <= #[trigger] s[i] && s[i] <= '9',
    ensures
        decimal_number(s.take(k)) <= decimal_number(s),
        decimal_number(s.take(k)) >= 0,
    decreases s.len() - k,
{
    if k < s.len() {
        lemma_decimal_number_grows(s, k + 1);
        assert(s.take(k + 1).drop_last() =~= s.take(k));
        lemma_decimal_number_nonneg(s.take(k));
    } else {
        assert(s.take(k) =~= s);
        lemma_decimal_number_nonneg(s);
    }
}

proof fn lemma_decimal_number_nonneg(s: Seq<char>)
    requires
        forall|i: int| 0 <= i < s.len() ==> '0' <= #[trigger] s[i] && s[i] <= '9',
    ensures
        decimal_number(s) >= 0,
    decreases s.len(),
{
    if s.len() > 0 {
        lemma_decimal_number_nonneg(s.drop_last());
    }
}

/// Reads the JSON text of a value as an unsigned integer, as
/// `serde_json::Value::as_u64` does.
pub fn parse_json_u64(s: &str) -> (r: Option<u64>)
    ensures
        r == json_u64(s@),
{
    let n = s.unicode_len();
    if n == 0 {
        return None;
    }
    let mut value: u64 = 0;
    let mut i: usize = 0;
    while i < n
        invariant
            n == s@.len(),
            i <= n,
            forall|j: int| 0 <= j < i ==> '0' <= #[trigger] s@[j] && s@[j] <= '9',
            value as int == decimal_number(s@.take(i as int)),
        decreases n - i,
    {
        let c = s.get_char(i);
        if c < '0' || c > '9' {
            proof {
                assert(!('0' <= s@[i as int] && s@[i as int] <= '9'));
            }
            return None;
        }
        proof {
            assert(s@.take(i + 1).drop_last() =~= s@.take(i as int));
        }
        let d: u64 = (c as u32 - '0' as u32) as u64;
        match value.checked_mul(10) {
            Some(t) => match t.checked_add(d) {
                Some(v) => {
                    value = v;
                },
                None => {
                    proof {
                        if is_digit_run(s@) {
                            lemma_decimal_number_grows(s@, i + 1);
                        }
                    }
                    return None;
                },
            },
            None => {
                proof {
                    if is_digit_run(s@) {
                        lemma_decimal_number_grows(s@, i + 1);
                    }
                }
                return None;
            },
        }
        i = i + 1;
    }
    proof {
        assert(s@.take(n as int) =~= s@);
    }
    Some(value)
}

/// The string field `key` of a request's body, as the verbs read their
/// arguments; `None` where the body has no such string.
pub fn request_str(env: &Envelope, key: &str) -> (r: Option<String>)
    ensures
        opt_view(r) == json_str_member(env.body@, key@),
{
    read_json_str_member(env.body.as_str(), key)
}

/// The unsigned integers of the array field `key` of a request's body, in
/// order, skipping any other element; empty where the body has no such
/// array.
pub fn request_u64s(env: &Envelope, key: &str) -> (r: Vec<u64>)
    ensures
        r@ == match json_array_member(env.body@, key@) {
            Some(items) => json_u64s(items),
            None => Seq::empty(),
        },
{
    match read_json_array_member(env.body.as_str(), key) {
        None => Vec::new(),
        Some(items) => {
            let mut out: Vec<u64> = Vec::new();
            let mut i: usize = 0;
            while i < items.len()
                invariant
                    i <= items@.len(),
                    out@ == json_u64s(texts(items@).take(i as int)),
                decreases items@.len() - i,
            {
                proof {
                    assert(texts(items@).take(i + 1).drop_last() =~= texts(items@).take(i as int));
                    assert(texts(items@).take(i + 1).last() == items@[i as int]@);
                }
                match parse_json_u64(items[i].as_str()) {
                    Some(n) => out.push(n),
                    None => {},
                }
                i = i + 1;
            }
            proof {
                assert(texts(items@).take(i as int) =~= texts(items@));
            }
            out
        },
    }
}

} // verus!
