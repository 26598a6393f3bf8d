use vstd::prelude::*;
use vstd::arithmetic::div_mod::lemma_mod_breakdown;
use vstd::arithmetic::power::pow;

verus! {

/// A lowercase hexadecimal digit, the only digits an identifier level may hold.
pub open spec fn is_hex_char(c: char) -> bool {
    ('0' <= c && c <= '9') || ('a' <= c && c <= 'f')
}

pub open spec fn hex_char_value(c: char) -> int {
    if c <= '9' {
        c as int - '0' as int
    } else {
        c as int - 'a' as int + 10
    }
}

/// The number that a run of hex digits spells, most significant digit first.
pub open spec fn hex_value(s: Seq<char>) -> int
    decreases s.len(),
{
    if s.len() == 0 {
        0
    } else {
        hex_value(s.drop_last()) * 16 + hex_char_value(s.last())
    }
}

/// The text of a concrete identifier: exactly 32 lowercase hex digits.
pub open spec fn is_id_text(s: Seq<char>) -> bool {
    &&& s.len() == 32
    &&& forall|i: int| 0 <= i < s.len() ==> is_hex_char(#[trigger] s[i])
}

/// The 32 lowercase hex digits that spell `v`.
pub open spec fn hex_text(v: u128) -> Seq<char> {
    choose|s: Seq<char>| is_id_text(s) && hex_value(s) == v as int
}

/// How an identifier stands in a topic: its hex text, or the single-level
/// wildcard `+` for the nil identifier.
pub open spec fn id_text(v: u128) -> Seq<char> {
    if v == 0 {
        seq!['+']
    } else {
        hex_text(v)
    }
}

proof fn lemma_digit_unique(a: int, d: int, b: int, e: int)
    requires
        0 <= d < 16,
        0 <= e < 16,
        a * 16 + d == b * 16 + e,
    ensures
        a == b,
        d == e,
{
    assert(a == b && d == e) by (nonlinear_arith)
        requires
            0 <= d < 16,
            0 <= e < 16,
            a * 16 + d == b * 16 + e,
    ;
}

proof fn lemma_hex_char_unique(c: char, d: char)
    requires
        is_hex_char(c),
        is_hex_char(d),
        hex_char_value(c) == hex_char_value(d),
    ensures
        c == d,
{
    assert(c as u32 == d as u32);
}

/// Two runs of hex digits of one length that spell one number are equal.
pub proof fn lemma_hex_unique(s: Seq<char>, t: Seq<char>)
    requires
        s.len() == t.len(),
        forall|i: int| 0 <= i < s.len() ==> is_hex_char(#[trigger] s[i]),
        forall|i: int| 0 <= i < t.len() ==> is_hex_char(#[trigger] t[i]),
        hex_value(s) == hex_value(t),
    ensures
        s == t,
    decreases s.len(),
{
    if s.len() > 0 {
        let (s0, t0) = (s.drop_last(), t.drop_last());
        assert(is_hex_char(s[s.len() - 1]));
        assert(is_hex_char(t[t.len() - 1]));
        lemma_digit_unique(hex_value(s0), hex_char_value(s.last()), hex_value(t0), hex_char_value(t.last()));
        assert forall|i: int| 0 <= i < s0.len() implies is_hex_char(#[trigger] s0[i]) by {
            assert(s0[i] == s[i]);
        }
        assert forall|i: int| 0 <= i < t0.len() implies is_hex_char(#[trigger] t0[i]) by {
            assert(t0[i] == t[i]);
        }
        lemma_hex_unique(s0, t0);
        lemma_hex_char_unique(s.last(), t.last());
        assert(s == s0.push(s.last()));
        assert(t == t0.push(t.last()));
    } else {
        assert(s =~= t);
    }
}

/// Any id text that spells `v` is the hex text of `v`.
pub proof fn lemma_hex_text_of(s: Seq<char>, v: u128)
    requires
        is_id_text(s),
        hex_value(s) == v as int,
    ensures
        hex_text(v) == s,
{
    let t = hex_text(v);
    assert(is_id_text(t) && hex_value(t) == v as int);
    lemma_hex_unique(s, t);
}

spec fn digit_char(d: int) -> char {
    seq!['0', '1', '2', '3', '4', '5', '6', '7', '8', '9', 'a', 'b', 'c', 'd', 'e', 'f'][d]
}

/// The last `n` hex digits of `v`.
spec fn digits(v: int, n: nat) -> Seq<char>
    decreases n,
{
    if n == 0 {
        Seq::empty()
    } else {
        digits(v / 16, (n - 1) as nat).push(digit_char(v % 16))
    }
}

proof fn lemma_digit_char(d: int)
    requires
        0 <= d < 16,
    ensures
        is_hex_char(digit_char(d)),
        hex_char_value(digit_char(d)) == d,
{
    let t = seq!['0', '1', '2', '3', '4', '5', '6', '7', '8', '9', 'a', 'b', 'c', 'd', 'e', 'f'];
    assert(t[d] == digit_char(d));
    if d < 8 {
        if d < 4 {
            assert(d == 0 || d == 1 || d == 2 || d == 3);
        } else {
            assert(d == 4 || d == 5 || d == 6 || d == 7);
        }
    } else if d < 12 {
        assert(d == 8 || d == 9 || d == 10 || d == 11);
    } else {
        assert(d == 12 || d == 13 || d == 14 || d == 15);
    }
}

proof fn lemma_digits(v: int, n: nat)
    requires
        v >= 0,
    ensures
        digits(v, n).len() == n,
        forall|i: int| 0 <= i < n ==> is_hex_char(#[trigger] digits(v, n)[i]),
        hex_value(digits(v, n)) == v % pow(16, n),
    decreases n,
{
    if n > 0 {
        let m = (n - 1) as nat;
        lemma_digits(v / 16, m);
        lemma_digit_char(v % 16);
        let d = digits(v, n);
        assert(d.drop_last() == digits(v / 16, m));
        assert forall|i: int| 0 <= i < n implies is_hex_char(#[trigger] d[i]) by {
            if i < m {
                assert(d[i] == digits(v / 16, m)[i]);
            }
        }
        vstd::arithmetic::power::lemma_pow_positive(16, m);
        lemma_mod_breakdown(v, 16, pow(16, m));
        reveal(pow);
        assert(pow(16, n) == 16 * pow(16, m));
    } else {
        reveal(pow);
    }
}

/// Every identifier value has a 32-digit hex text.
pub proof fn lemma_hex_text(v: u128)
    ensures
        is_id_text(hex_text(v)),
        hex_value(hex_text(v)) == v as int,
{
    lemma_digits(v as int, 32);
    reveal_with_fuel(pow, 33);
    assert(pow(16, 32) == 0x1_0000_0000_0000_0000_0000_0000_0000_0000);
    vstd::arithmetic::div_mod::lemma_small_mod(v as nat, pow(16, 32) as nat);
    let w = digits(v as int, 32);
    assert(is_id_text(w) && hex_value(w) == v as int);
}

/// Relies on uuid's `Uuid::from_u128` and the `Display` of `Uuid::simple`:
/// 32 lowercase hex digits, most significant first.
#[verifier::external_body]
fn simple_hex(v: u128) -> (r: String)
    ensures
        is_id_text(r@),
        hex_value(r@) == v as int,
{
    uuid::Uuid::from_u128(v).simple().to_string()
}

/// Relies on uuid's `Uuid::parse_str` (a 32-byte input is read as simple hex)
/// and `Uuid::as_u128`.
#[verifier::external_body]
fn parse_simple_hex(s: &str) -> (r: Option<u128>)
    ensures
        is_id_text(s@) ==> r == Some(hex_value(s@) as u128),
{
    uuid::Uuid::parse_str(s).ok().map(|u| u.as_u128())
}

/// Identifier of a connector, sensor or metric: an opaque 128-bit token.
#[derive(Clone, Copy, Debug, PartialEq, Eq, Structural, Hash, PartialOrd, Ord, Default)]
pub struct MqttId {
    pub value: u128,
}

pub type ConnectorId = MqttId;

pub type SensorId = MqttId;

pub type MetricId = MqttId;

impl MqttId {
    pub fn from_u128(value: u128) -> (r: MqttId)
        ensures
            r.value == value,
    {
        MqttId { value }
    }

    pub fn nil() -> (r: MqttId)
        ensures
            r.value == 0,
    {
        MqttId { value: 0 }
    }

    pub fn is_nil(&self) -> (r: bool)
        ensures
            r == (self.value == 0),
    {
        self.value == 0
    }

    /// The text of this identifier in a topic.
    pub fn to_text(&self) -> (r: String)
        ensures
            r@ == id_text(self.value),
    {
        if self.value == 0 {
            let r = String::from_str("+");
            proof {
                reveal_strlit("+");
            }
            r
        } else {
            let r = simple_hex(self.value);
            proof {
                lemma_hex_text_of(r@, self.value);
            }
            r
        }
    }

    /// Reads an identifier level: `Some` exactly when `s` is 32 lowercase hex digits.
    pub fn from_text(s: &str) -> (r: Option<MqttId>)
        ensures
            is_id_text(s@) ==> r == Some(MqttId { value: hex_value(s@) as u128 }),
            !is_id_text(s@) ==> r is None,
    {
        if !is_id_str(s) {
            return None;
        }
        match parse_simple_hex(s) {
            Some(v) => Some(MqttId { value: v }),
            None => None,
        }
    }
}

pub fn is_hex_digit(c: char) -> (r: bool)
    ensures
        r == is_hex_char(c),
{
    ('0' <= c && c <= '9') || ('a' <= c && c <= 'f')
}

/// Whether `s` is the text of a concrete identifier.
pub fn is_id_str(s: &str) -> (r: bool)
    ensures
        r == is_id_text(s@),
{
    let n = s.unicode_len();
    if n != 32 {
        return false;
    }
    let mut i: usize = 0;
    while i < n
        invariant
            n == s@.len(),
            0 <= i <= n,
            forall|j: int| 0 <= j < i ==> is_hex_char(#[trigger] s@[j]),
        decreases n - i,
    {
        if !is_hex_digit(s.get_char(i)) {
            return false;
        }
        i += 1;
    }
    true
}

} // verus!
