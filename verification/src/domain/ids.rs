//! ULID identifier newtypes and the BLAKE3 binding key.

use core::marker::PhantomData;
use vstd::prelude::*;
use vstd::string::{StringExecFns, StringSliceAdditionalSpecFns};
use vstd::arithmetic::power2::{pow2, lemma2_to64, lemma_pow2_adds, lemma_pow2_pos};
use vstd::arithmetic::div_mod::{
    lemma_basic_div, lemma_div_basics, lemma_div_denominator, lemma_div_is_ordered_by_denominator,
    lemma_fundamental_div_mod, lemma_small_mod,
};

verus! {

/// The character code of the Crockford base-32 digit of `d` (0 to 31), in
/// the alphabet `0123456789ABCDEFGHJKMNPQRSTVWXYZ`: the decimal digits, then
/// the capital letters but I, L, O and U.
pub open spec fn crockford_code(d: int) -> int {
    if d < 10 {
        48 + d
    } else if d < 18 {
        65 + (d - 10)
    } else if d < 20 {
        74 + (d - 18)
    } else if d < 22 {
        77 + (d - 20)
    } else if d < 27 {
        80 + (d - 22)
    } else {
        86 + (d - 27)
    }
}

/// The Crockford base-32 digit of `d` (0 to 31).
pub open spec fn crockford_digit(d: int) -> char {
    crockford_code(d) as char
}

/// The text of the ULID with value `v`, as `ulid::Ulid` writes it: 26
/// Crockford base-32 digits, five bits each, the most significant first.
pub open spec fn ulid_text(v: u128) -> Seq<char> {
    Seq::new(26, |i: int| crockford_digit(((v as int) / vstd::arithmetic::power2::pow2((5 * (25 - i)) as nat) as int) % 32))
}

/// The value of `c` as a Crockford base-32 digit, in either case; `None`
/// for any other character.
pub open spec fn crockford_value(c: char) -> Option<int> {
    let x = if 97 <= (c as int) && (c as int) <= 122 { (c as int) - 32 } else { c as int };
    if 48 <= x && x <= 57 {
        Some(x - 48)
    } else if 65 <= x && x <= 72 {
        Some(x - 55)
    } else if 74 <= x && x <= 75 {
        Some(x - 56)
    } else if 77 <= x && x <= 78 {
        Some(x - 57)
    } else if 80 <= x && x <= 84 {
        Some(x - 58)
    } else if 86 <= x && x <= 90 {
        Some(x - 59)
    } else {
        None
    }
}

/// The number that the digits `s` spell, five bits each, the first the most
/// significant, kept to its lowest 128 bits.
pub open spec fn crockford_number(s: Seq<char>) -> int
    decreases s.len(),
{
    if s.len() == 0 {
        0
    } else {
        (crockford_number(s.drop_last()) * 32 + crockford_value(s.last())->0) % vstd::arithmetic::power2::pow2(128) as int
    }
}

/// The value of the ULID written as `s`, if `s` is one: 26 Crockford
/// base-32 digits, in either case.
pub open spec fn ulid_decoded(s: Seq<char>) -> Option<u128> {
    if s.len() == 26 && forall|i: int| 0 <= i < 26 ==> #[trigger] crockford_value(s[i]) is Some {
        Some(crockford_number(s) as u128)
    } else {
        None
    }
}

/// Each Crockford digit reads back as its value.
proof fn lemma_digit_value(d: int)
    requires
        0 <= d < 32,
    ensures
        crockford_value(crockford_digit(d)) == Some(d),
{
}

/// The first `k` digits of a ULID text spell the value's top `5 * k` bits.
proof fn lemma_prefix_number(v: u128, k: int)
    requires
        0 <= k <= 26,
    ensures
        crockford_number(ulid_text(v).take(k)) == (v as int) / (pow2((5 * (26 - k)) as nat) as int),
        forall|i: int| 0 <= i < k ==> #[trigger] crockford_value(ulid_text(v)[i]) is Some,
    decreases k,
{
    let t = ulid_text(v);
    lemma2_to64();
    lemma_pow2_adds(64, 64);
    lemma_pow2_pos((5 * (26 - k)) as nat);
    if k == 0 {
        assert(t.take(0) =~= Seq::<char>::empty());
        lemma_pow2_adds(128, 2);
        lemma_basic_div(v as int, pow2(130) as int);
    } else {
        lemma_prefix_number(v, k - 1);
        let d = pow2((5 * (26 - k)) as nat) as int;
        let q = (v as int) / d;
        lemma_digit_value(q % 32);
        assert(t[k - 1] == crockford_digit(q % 32));
        assert(t.take(k).drop_last() =~= t.take(k - 1));
        lemma_pow2_adds((5 * (26 - k)) as nat, 5);
        assert((5 * (26 - k)) as nat + 5 == (5 * (26 - (k - 1))) as nat);
        lemma_div_denominator(v as int, d, 32);
        lemma_fundamental_div_mod(q, 32);
        lemma_div_is_ordered_by_denominator(v as int, 1, d);
        lemma_div_basics(v as int);
        lemma_small_mod(q as nat, pow2(128));
    }
}

/// A ULID text reads back as the value it was written from.
pub proof fn lemma_ulid_text_decodes(v: u128)
    ensures
        ulid_decoded(ulid_text(v)) == Some(v),
{
    lemma_prefix_number(v, 26);
    lemma2_to64();
    lemma_div_basics(v as int);
    assert(ulid_text(v).take(26) =~= ulid_text(v));
}

/// Why a text is no identifier.
#[derive(Debug, Clone, Copy, PartialEq, Eq, Structural)]
pub enum IdParseError {
    /// The text is not 26 bytes long.
    InvalidLength,
    /// The text holds a character that is no base-32 digit.
    InvalidChar,
}

/// A new ULID value: the current time and random bits.
///
/// Calls `ulid::Ulid::new`. Nothing is claimed of the value.
#[verifier::external_body]
pub(crate) fn fresh_ulid() -> (r: u128) {
    ulid::Ulid::new().0
}

/// The text of a ULID value.
///
/// Calls `ulid::Ulid::to_string`, which writes 26 characters of the
/// Crockford alphabet, five bits each from the last (`ulid_text`).
#[verifier::external_body]
pub(crate) fn ulid_string(v: u128) -> (r: String)
    ensures
        r@ == ulid_text(v),
{
    ulid::Ulid(v).to_string()
}

/// Reads a ULID text.
///
/// Calls `ulid::Ulid::from_string`, which refuses a text that is not 26
/// bytes long as `InvalidLength` before it looks at any character, then
/// refuses any byte outside the Crockford alphabet (either case) as
/// `InvalidChar`, and otherwise shifts the digits into a `u128`, five bits
/// each, the first the most significant (`ulid_decoded`).
#[verifier::external_body]
fn ulid_parse(s: &str) -> (r: Result<u128, IdParseError>)
    ensures
        match r {
            Ok(v) => ulid_decoded(s@) == Some(v),
            Err(_) => ulid_decoded(s@) is None,
        },
        s.spec_bytes().len() != 26 <==> (r matches Err(IdParseError::InvalidLength)),
{
    match ulid::Ulid::from_string(s) {
        Ok(u) => Ok(u.0),
        Err(ulid::DecodeError::InvalidLength) => Err(IdParseError::InvalidLength),
        Err(ulid::DecodeError::InvalidChar) => Err(IdParseError::InvalidChar),
    }
}

/// A ULID identifier of one kind of thing; `K` keeps the kinds apart.
#[derive(Debug, Copy, PartialEq, Eq, PartialOrd, Ord, Hash)]
pub struct Id<K> {
    value: u128,
    kind: PhantomData<K>,
}

impl<K> Id<K> {
    /// The ULID value.
    pub closed spec fn spec_value(&self) -> u128 {
        self.value
    }

    /// A new identifier, sortable by creation time.
    pub fn new() -> (r: Id<K>) {
        Id { value: fresh_ulid(), kind: PhantomData }
    }

    /// The identifier with ULID value `value`.
    pub fn from_value(value: u128) -> (r: Id<K>)
        ensures
            r.spec_value() == value,
    {
        Id { value, kind: PhantomData }
    }

    /// The ULID value.
    pub fn value(&self) -> (r: u128)
        ensures
            r == self.spec_value(),
    {
        self.value
    }

    /// The identifier in its 26-character text form.
    pub fn to_string(&self) -> (r: String)
        ensures
            r@ == ulid_text(self.spec_value()),
            r@.len() == 26,
            ulid_decoded(r@) == Some(self.spec_value()),
    {
        proof {
            lemma_ulid_text_decodes(self.value);
        }
        ulid_string(self.value)
    }

    /// Reads an identifier from its text form.
    pub fn parse(s: &str) -> (r: Result<Id<K>, IdParseError>)
        ensures
            match r {
                Ok(id) => ulid_decoded(s@) == Some(id.spec_value()),
                Err(_) => ulid_decoded(s@) is None,
            },
            s.spec_bytes().len() != 26 <==> (r matches Err(IdParseError::InvalidLength)),
    {
        match ulid_parse(s) {
            Ok(v) => Ok(Id { value: v, kind: PhantomData }),
            Err(e) => Err(e),
        }
    }
}

/// An identifier's text form reads back as the identifier: where `text` is
/// the text `to_string` wrote for `id`, and `parsed` what `parse` made of it,
/// `parsed` is `id`.
pub proof fn lemma_id_text_round_trip<K>(id: Id<K>, text: Seq<char>, parsed: Result<Id<K>, IdParseError>)
    requires
        text == ulid_text(id.spec_value()),
        match parsed {
            Ok(p) => ulid_decoded(text) == Some(p.spec_value()),
            Err(_) => ulid_decoded(text) is None,
        },
    ensures
        parsed matches Ok(p) && p.spec_value() == id.spec_value(),
{
    lemma_ulid_text_decodes(id.spec_value());
}

impl<K> Clone for Id<K> {
    fn clone(&self) -> (r: Id<K>)
        ensures
            r.spec_value() == self.spec_value(),
    {
        Id { value: self.value, kind: PhantomData }
    }
}

impl<K> Default for Id<K> {
    fn default() -> (r: Id<K>) {
        Id::new()
    }
}

impl<K> std::str::FromStr for Id<K> {
    type Err = IdParseError;

    fn from_str(s: &str) -> (r: Result<Id<K>, IdParseError>)
        ensures
            match r {
                Ok(id) => ulid_decoded(s@) == Some(id.spec_value()),
                Err(_) => ulid_decoded(s@) is None,
            },
            s.spec_bytes().len() != 26 <==> (r matches Err(IdParseError::InvalidLength)),
    {
        Id::parse(s)
    }
}

/// Kind of [`WorkspaceId`].
#[derive(Debug, Clone, Copy, PartialEq, Eq, PartialOrd, Ord, Hash)]
pub struct WorkspaceKind;

/// Kind of [`RuntimeId`].
#[derive(Debug, Clone, Copy, PartialEq, Eq, PartialOrd, Ord, Hash)]
pub struct RuntimeKind;

/// Kind of [`SnapshotId`].
#[derive(Debug, Clone, Copy, PartialEq, Eq, PartialOrd, Ord, Hash)]
pub struct SnapshotKind;

/// Kind of [`PaneId`].
#[derive(Debug, Clone, Copy, PartialEq, Eq, PartialOrd, Ord, Hash)]
pub struct PaneKind;

/// Kind of [`SessionId`].
#[derive(Debug, Clone, Copy, PartialEq, Eq, PartialOrd, Ord, Hash)]
pub struct SessionKind;

/// Kind of [`TabId`].
#[derive(Debug, Clone, Copy, PartialEq, Eq, PartialOrd, Ord, Hash)]
pub struct TabKind;

/// Kind of [`EventId`].
#[derive(Debug, Clone, Copy, PartialEq, Eq, PartialOrd, Ord, Hash)]
pub struct EventKind;

/// Kind of [`BlobId`].
#[derive(Debug, Clone, Copy, PartialEq, Eq, PartialOrd, Ord, Hash)]
pub struct BlobKind;

/// Unique identifier for a workspace.
pub type WorkspaceId = Id<WorkspaceKind>;

/// Unique identifier for a runtime (multiplexer session).
pub type RuntimeId = Id<RuntimeKind>;

/// Unique identifier for a snapshot.
pub type SnapshotId = Id<SnapshotKind>;

/// Unique identifier for a pane.
pub type PaneId = Id<PaneKind>;

/// Unique identifier for a multiplexer session.
pub type SessionId = Id<SessionKind>;

/// Unique identifier for a tab.
pub type TabId = Id<TabKind>;

/// Unique identifier for a durable event.
pub type EventId = Id<EventKind>;

/// Unique identifier for a content-addressed blob.
pub type BlobId = Id<BlobKind>;

/// The BLAKE3 digest of `input`.
pub uninterp spec fn blake3_digest(input: Seq<u8>) -> Seq<u8>;

/// The BLAKE3 hash of `input`.
///
/// Calls `blake3::hash`; its 32 bytes are named, not spelled out. The
/// crate's documentation shows hashing a message at once and feeding it to a
/// `Hasher` in pieces giving the same hash.
#[verifier::external_body]
pub(crate) fn blake3_hash(input: &[u8]) -> (r: [u8; 32])
    ensures
        r@ == blake3_digest(input@),
{
    *blake3::hash(input).as_bytes()
}

/// Appends `bytes` to `v`.
pub(crate) fn push_bytes(v: &mut Vec<u8>, bytes: &[u8])
    ensures
        final(v)@ == old(v)@ + bytes@,
{
    v.extend_from_slice(bytes);
    assert(final(v)@ =~= old(v)@ + bytes@);
}

/// A stable key identifying a workspace by its directory and optional git
/// identity: the BLAKE3 hash of the canonical path, then of a zero byte and
/// the remote, then of a zero byte and the worktree.
#[derive(Debug, Clone, Copy, PartialEq, Eq, Hash)]
pub struct BindingKey([u8; 32]);

/// The message hashed into a binding key.
pub open spec fn binding_message(path: Seq<u8>, remote: Option<Seq<u8>>, worktree: Option<Seq<u8>>) -> Seq<u8> {
    path + match remote {
        Some(r) => seq![0u8] + r,
        None => Seq::empty(),
    } + match worktree {
        Some(w) => seq![0u8] + w,
        None => Seq::empty(),
    }
}

/// The UTF-8 bytes of an optional text.
pub open spec fn opt_bytes(s: Option<&str>) -> Option<Seq<u8>> {
    match s {
        Some(t) => Some(t.spec_bytes()),
        None => None,
    }
}

/// The two lower-case hex digits of a byte.
pub open spec fn hex_pair(b: u8) -> Seq<char> {
    seq![hex_digit((b / 16) as nat), hex_digit((b % 16) as nat)]
}

/// The lower-case hex digit of `d < 16`.
pub open spec fn hex_digit(d: nat) -> char {
    if d < 10 {
        crate::decimal::digit_char(d)
    } else if d == 10 {
        'a'
    } else if d == 11 {
        'b'
    } else if d == 12 {
        'c'
    } else if d == 13 {
        'd'
    } else if d == 14 {
        'e'
    } else {
        'f'
    }
}

/// The lower-case hex text of `bytes`, two digits per byte.
pub open spec fn hex_text(bytes: Seq<u8>) -> Seq<char>
    decreases bytes.len(),
{
    if bytes.len() == 0 {
        Seq::empty()
    } else {
        hex_text(bytes.drop_last()) + hex_pair(bytes.last())
    }
}

/// Two hex digits per byte.
pub proof fn lemma_hex_text_len(bytes: Seq<u8>)
    ensures
        hex_text(bytes).len() == 2 * bytes.len(),
    decreases bytes.len(),
{
    if bytes.len() > 0 {
        lemma_hex_text_len(bytes.drop_last());
    }
}

/// The one-character text of the hex digit `d`.
fn hex_digit_text(d: u8) -> (r: &'static str)
    requires
        d < 16,
    ensures
        r@ == seq![hex_digit(d as nat)],
{
    proof {
        reveal_strlit("0");
        reveal_strlit("1");
        reveal_strlit("2");
        reveal_strlit("3");
        reveal_strlit("4");
        reveal_strlit("5");
        reveal_strlit("6");
        reveal_strlit("7");
        reveal_strlit("8");
        reveal_strlit("9");
        reveal_strlit("a");
        reveal_strlit("b");
        reveal_strlit("c");
        reveal_strlit("d");
        reveal_strlit("e");
        reveal_strlit("f");
    }
    match d {
        0 => "0",
        1 => "1",
        2 => "2",
        3 => "3",
        4 => "4",
        5 => "5",
        6 => "6",
        7 => "7",
        8 => "8",
        9 => "9",
        10 => "a",
        11 => "b",
        12 => "c",
        13 => "d",
        14 => "e",
        _ => "f",
    }
}

impl BindingKey {
    /// The key's bytes.
    pub closed spec fn key_bytes(&self) -> Seq<u8> {
        self.0@
    }

    /// A key is its bytes: two keys with the same bytes are the same key, so
    /// a key rebuilt from its bytes is the key.
    pub proof fn lemma_bytes_determine_key(k1: BindingKey, k2: BindingKey)
        requires
            k1.key_bytes() == k2.key_bytes(),
        ensures
            k1 == k2,
    {
        assert forall|i: int| 0 <= i < 32 implies k1.0[i] == k2.0[i] by {
            assert(k1.0@[i] == k2.0@[i]);
        }
        vstd::array::axiom_array_ext_equal(k1.0, k2.0);
        assert(k1.0 =~= k2.0);
    }

    /// The key with the given bytes (such as a BLAKE3 hash).
    pub fn from_bytes(bytes: [u8; 32]) -> (k: BindingKey)
        ensures
            k.key_bytes() == bytes@,
    {
        BindingKey(bytes)
    }

    /// The key of a canonical path and optional git metadata.
    pub fn compute(canonical_path: &str, git_remote: Option<&str>, worktree: Option<&str>) -> (k: BindingKey)
        ensures
            k.key_bytes() == blake3_digest(
                binding_message(canonical_path.spec_bytes(), opt_bytes(git_remote), opt_bytes(worktree)),
            ),
    {
        let mut msg: Vec<u8> = Vec::new();
        push_bytes(&mut msg, canonical_path.as_bytes());
        let ghost after_path = msg@;
        match git_remote {
            Some(remote) => {
                msg.push(0u8);
                push_bytes(&mut msg, remote.as_bytes());
                assert(msg@ =~= after_path + (seq![0u8] + remote.spec_bytes()));
            },
            None => {
                assert(msg@ =~= after_path + Seq::<u8>::empty());
            },
        }
        let ghost after_remote = msg@;
        match worktree {
            Some(wt) => {
                msg.push(0u8);
                push_bytes(&mut msg, wt.as_bytes());
                assert(msg@ =~= after_remote + (seq![0u8] + wt.spec_bytes()));
            },
            None => {
                assert(msg@ =~= after_remote + Seq::<u8>::empty());
            },
        }
        BindingKey(blake3_hash(msg.as_slice()))
    }

    /// The key's bytes.
    pub fn as_bytes(&self) -> (r: &[u8; 32])
        ensures
            r@ == self.key_bytes(),
    {
        &self.0
    }

    /// The key as 64 lower-case hex digits.
    pub fn to_string(&self) -> (r: String)
        ensures
            r@ == hex_text(self.key_bytes()),
            r@.len() == 64,
    {
        proof {
            lemma_hex_text_len(self.0@);
        }
        let mut s = String::new();
        let mut i: usize = 0;
        while i < 32
            invariant
                i <= 32,
                self.0@.len() == 32,
                s@ == hex_text(self.0@.take(i as int)),
            decreases 32 - i,
        {
            let b = self.0[i];
            s.append(hex_digit_text(b / 16));
            s.append(hex_digit_text(b % 16));
            proof {
                let u = self.0@.take(i + 1);
                assert(u.drop_last() =~= self.0@.take(i as int));
                assert(u.last() == b);
            }
            i = i + 1;
        }
        assert(self.0@.take(32) =~= self.0@);
        s
    }
}

} // verus!
