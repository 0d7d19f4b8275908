//! Keys and literal values as they occur in OData resource paths and
//! `$filter` expressions.

use vstd::prelude::*;

use crate::bridge::parse_decimal;
use crate::bridge::string_from_chars;
use crate::chars::chars_eq_str;
use crate::chars::contains_char;
use crate::chars::contains_sub;
use crate::chars::dec_digits;
use crate::chars::find_char;
use crate::chars::find_sub;
use crate::chars::int_chars;
use crate::chars::int_to_chars;
use crate::chars::nat_chars;
use crate::chars::subchars;
use crate::chars::trim_end_matches_str;
use crate::chars::trim_start_matches_str;

verus! {

/// A decimal number as its integer mantissa and scale: the value is
/// `mantissa / 10^scale`. This mirrors the 96-bit decimal representation
/// used on the wire, as plain values the verifier can reason about.
#[derive(Debug, Clone, Copy, PartialEq)]
pub struct DecimalValue {
    pub mantissa: i128,
    pub scale: u32,
}

impl DecimalValue {
    /// The bounds the parser guarantees: a 96-bit mantissa, scale at most 28.
    pub open spec fn wf(self) -> bool {
        -79228162514264337593543950336 < self.mantissa < 79228162514264337593543950336
            && self.scale <= 28
    }
}

/// A literal value: `null`, a string, an integer, a boolean, a decimal, or
/// a `@name` query-option reference.
#[derive(Debug, PartialEq)]
pub enum Value {
    Null,
    String(String),
    Integer(i32),
    Boolean(bool),
    Decimal(DecimalValue),
    QueryOption(String),
}

impl Value {
    /// Every decimal payload satisfies its bounds.
    pub open spec fn wf(self) -> bool {
        match self {
            Value::Decimal(d) => d.wf(),
            _ => true,
        }
    }
}

/// The key of an addressed entity: a bare string, a bare number, or a
/// named `field=value` pair.
#[derive(Debug, PartialEq)]
pub enum Key {
    String(String),
    Number(i32),
    KeyValue((String, Value)),
}

impl Key {
    pub open spec fn wf(self) -> bool {
        match self {
            Key::KeyValue(p) => p.1.wf(),
            _ => true,
        }
    }
}

/// A named entity reference, optionally carrying a key.
#[derive(Debug, PartialEq)]
pub struct Entity {
    pub name: String,
    pub key: Option<Key>,
}

impl Entity {
    pub open spec fn wf(self) -> bool {
        match self.key {
            Some(k) => k.wf(),
            None => true,
        }
    }
}

/// Ten to the power `k`.
pub open spec fn pow10(k: int) -> int
    decreases k,
{
    if k <= 0 {
        1
    } else {
        10 * pow10(k - 1)
    }
}

pub proof fn lemma_pow10_pos(k: int)
    ensures
        pow10(k) >= 1,
    decreases k,
{
    if k > 0 {
        lemma_pow10_pos(k - 1);
    }
}

proof fn lemma_pow10_28()
    ensures
        pow10(28) == 10000000000000000000000000000,
{
    reveal_with_fuel(pow10, 30);
}

/// A digit string for `n < pow10(k)` has at most `k` digits.
proof fn lemma_dec_digits_len(n: int, k: int)
    requires
        0 <= n,
        1 <= k,
        n < pow10(k),
    ensures
        1 <= dec_digits(n).len() <= k,
    decreases k,
{
    if n < 10 {
        assert(dec_digits(n).len() == 1);
    } else {
        lemma_pow10_pos(k - 1);
        assert(pow10(k) == 10 * pow10(k - 1));
        assert(n / 10 < pow10(k - 1)) by (nonlinear_arith)
            requires
                n < 10 * pow10(k - 1),
                n >= 10,
                pow10(k - 1) >= 1,
        ;
        assert(k >= 2) by {
            if k == 1 {
                assert(pow10(1) == 10);
            }
        }
        lemma_dec_digits_len(n / 10, k - 1);
    }
}

/// `k` zero characters (none when `k <= 0`).
pub open spec fn zeros(k: int) -> Seq<char>
    decreases k,
{
    if k <= 0 {
        Seq::empty()
    } else {
        seq!['0'] + zeros(k - 1)
    }
}

/// The textual form of a decimal with the given mantissa and scale, as the
/// wire format renders it: the mantissa's digits with a point `scale`
/// places from the right, zero-padded, with a leading minus for negatives.
pub open spec fn decimal_chars(m: int, scale: int) -> Seq<char> {
    let sign: Seq<char> = if m < 0 {
        seq!['-']
    } else {
        Seq::empty()
    };
    let mag: int = if m < 0 {
        -m
    } else {
        m
    };
    if scale <= 0 {
        sign + dec_digits(mag)
    } else {
        sign + dec_digits(mag / pow10(scale)) + seq!['.'] + zeros(
            scale - dec_digits(mag % pow10(scale)).len(),
        ) + dec_digits(mag % pow10(scale))
    }
}

/// Compute ten to the power `k` for scales up to 28.
pub fn pow10_u128(k: u32) -> (r: u128)
    requires
        k <= 28,
    ensures
        r == pow10(k as int),
{
    let mut acc: u128 = 1;
    let mut i: u32 = 0;
    while i < k
        invariant
            i <= k <= 28,
            acc == pow10(i as int),
        decreases k - i,
    {
        proof {
            lemma_pow10_28();
            lemma_pow10_monotone(i as int + 1, 28);
            lemma_pow10_pos(i as int);
        }
        acc = acc * 10;
        i += 1;
    }
    acc
}

pub proof fn lemma_pow10_monotone(a: int, b: int)
    requires
        a <= b,
    ensures
        pow10(a) <= pow10(b),
    decreases b - a,
{
    if a < b {
        lemma_pow10_monotone(a, b - 1);
        lemma_pow10_pos(b - 1);
    }
}

/// Render a well-formed decimal value as text.
pub fn decimal_to_chars(d: &DecimalValue) -> (r: Vec<char>)
    requires
        d.wf(),
    ensures
        r@ == decimal_chars(d.mantissa as int, d.scale as int),
{
    let neg: bool = d.mantissa < 0;
    let mag: i128 = if neg {
        -d.mantissa
    } else {
        d.mantissa
    };
    let mut out: Vec<char> = Vec::new();
    if neg {
        out.push('-');
    }
    let ghost sign: Seq<char> = if d.mantissa < 0 {
        seq!['-']
    } else {
        Seq::empty()
    };
    proof {
        assert(out@ =~= sign);
    }
    let mag_u: u128 = mag as u128;
    if d.scale == 0 {
        let digits = nat_chars(mag_u);
        crate::chars::append_chars(&mut out, &digits);
        proof {
            assert(out@ =~= sign + dec_digits(mag as int));
        }
        out
    } else {
        let p: u128 = pow10_u128(d.scale);
        proof {
            lemma_pow10_pos(d.scale as int);
        }
        let ip: u128 = mag_u / p;
        let fp: u128 = mag_u % p;
        proof {
            assert(0 <= fp < p);
        }
        let ip_digits = nat_chars(ip);
        crate::chars::append_chars(&mut out, &ip_digits);
        out.push('.');
        let fp_digits = nat_chars(fp);
        proof {
            lemma_pow10_28();
            lemma_pow10_monotone(d.scale as int, 28);
            lemma_dec_digits_len(fp as int, d.scale as int);
        }
        let pad: u32 = d.scale - (fp_digits.len() as u32);
        let mut z: u32 = 0;
        while z < pad
            invariant
                z <= pad,
                pad == d.scale - fp_digits@.len(),
                fp_digits@ == dec_digits(fp as int),
                out@ == sign + dec_digits(ip as int) + seq!['.'] + zeros(z as int),
            decreases pad - z,
        {
            out.push('0');
            proof {
                lemma_zeros_snoc(z as int + 1);
                assert(out@ =~= sign + dec_digits(ip as int) + seq!['.'] + zeros(z as int + 1));
            }
            z += 1;
        }
        crate::chars::append_chars(&mut out, &fp_digits);
        proof {
            assert(out@ =~= decimal_chars(d.mantissa as int, d.scale as int));
        }
        out
    }
}

proof fn lemma_zeros_snoc(k: int)
    requires
        k >= 1,
    ensures
        zeros(k) == zeros(k - 1) + seq!['0'],
    decreases k,
{
    if k == 1 {
        assert(zeros(1) =~= zeros(0) + seq!['0']);
    } else {
        lemma_zeros_snoc(k - 1);
        assert(zeros(k) == seq!['0'] + zeros(k - 1));
        assert(seq!['0'] + (zeros(k - 2) + seq!['0']) =~= (seq!['0'] + zeros(k - 2)) + seq!['0']);
    }
}

/// The display text of a value, as the wire format writes it.
pub open spec fn value_text(v: Value) -> Seq<char> {
    match v {
        Value::Null => "null"@,
        Value::String(s) => s@,
        Value::Integer(n) => int_chars(n as int),
        Value::Boolean(b) => if b {
            "true"@
        } else {
            "false"@
        },
        Value::Decimal(d) => decimal_chars(d.mantissa as int, d.scale as int),
        Value::QueryOption(s) => seq!['@'] + s@,
    }
}

/// The display text of a key.
pub open spec fn key_text(k: Key) -> Seq<char> {
    match k {
        Key::String(s) => s@,
        Key::Number(n) => int_chars(n as int),
        Key::KeyValue(p) => p.0@ + seq!['='] + value_text(p.1),
    }
}

/// The display text of an entity reference: the name, with the key's text
/// in parentheses when a key is present.
pub open spec fn entity_text(e: Entity) -> Seq<char> {
    match e.key {
        Some(k) => e.name@ + seq!['('] + key_text(k) + seq![')'],
        None => e.name@,
    }
}

impl Value {
    /// Render the value as display text.
    pub fn to_text(&self) -> (r: String)
        requires
            self.wf(),
        ensures
            r@ == value_text(*self),
    {
        match self {
            Value::Null => {
                let r = String::from_str("null");
                r
            },
            Value::String(s) => {
                let r = s.clone();
                proof {
                    assert(r@ == s@);
                }
                r
            },
            Value::Integer(n) => {
                let digits = int_to_chars(*n as i128);
                string_from_chars(&digits)
            },
            Value::Boolean(b) => {
                if *b {
                    String::from_str("true")
                } else {
                    String::from_str("false")
                }
            },
            Value::Decimal(d) => {
                let digits = decimal_to_chars(d);
                string_from_chars(&digits)
            },
            Value::QueryOption(s) => {
                let mut r = String::from_str("@");
                r.append(s.as_str());
                proof {
                    reveal_strlit("@");
                    assert("@"@ =~= seq!['@']);
                }
                r
            },
        }
    }
}

impl Key {
    /// Render the key as display text.
    pub fn to_text(&self) -> (r: String)
        requires
            self.wf(),
        ensures
            r@ == key_text(*self),
    {
        match self {
            Key::String(s) => {
                let r = s.clone();
                proof {
                    assert(r@ == s@);
                }
                r
            },
            Key::Number(n) => {
                let digits = int_to_chars(*n as i128);
                string_from_chars(&digits)
            },
            Key::KeyValue(p) => {
                let mut r = p.0.clone();
                r.append("=");
                let vt = p.1.to_text();
                r.append(vt.as_str());
                proof {
                    reveal_strlit("=");
                    assert("="@ =~= seq!['=']);
                    assert(r@ =~= p.0@ + seq!['='] + value_text(p.1));
                }
                r
            },
        }
    }
}

impl Entity {
    /// Render the entity reference as display text.
    pub fn to_text(&self) -> (r: String)
        requires
            self.wf(),
        ensures
            r@ == entity_text(*self),
    {
        match &self.key {
            Some(k) => {
                let mut r = self.name.clone();
                r.append("(");
                let kt = k.to_text();
                r.append(kt.as_str());
                r.append(")");
                proof {
                    reveal_strlit("(");
                    reveal_strlit(")");
                    assert("("@ =~= seq!['(']);
                    assert(")"@ =~= seq![')']);
                    assert(r@ =~= self.name@ + seq!['('] + key_text(*k) + seq![')']);
                }
                r
            },
            None => {
                let r = self.name.clone();
                proof {
                    assert(r@ == self.name@);
                }
                r
            },
        }
    }
}

/// Ghost mirror of `Value`, over character sequences.
pub enum ValueV {
    NullV,
    StrV(Seq<char>),
    IntV(i32),
    BoolV(bool),
    DecV(i128, u32),
    OptV(Seq<char>),
}

/// Ghost mirror of `Key`.
pub enum KeyV {
    KeyStrV(Seq<char>),
    KeyNumV(i32),
    KeyPairV(Seq<char>, ValueV),
}

/// Ghost mirror of `Entity`.
pub struct EntityV {
    pub name: Seq<char>,
    pub key: Option<KeyV>,
}

/// The abstract contents of a value.
pub open spec fn value_view(v: Value) -> ValueV {
    match v {
        Value::Null => ValueV::NullV,
        Value::String(s) => ValueV::StrV(s@),
        Value::Integer(n) => ValueV::IntV(n),
        Value::Boolean(b) => ValueV::BoolV(b),
        Value::Decimal(d) => ValueV::DecV(d.mantissa, d.scale),
        Value::QueryOption(s) => ValueV::OptV(s@),
    }
}

/// The abstract contents of a key.
pub open spec fn key_view(k: Key) -> KeyV {
    match k {
        Key::String(s) => KeyV::KeyStrV(s@),
        Key::Number(n) => KeyV::KeyNumV(n),
        Key::KeyValue(p) => KeyV::KeyPairV(p.0@, value_view(p.1)),
    }
}

/// The abstract contents of an entity reference.
pub open spec fn entity_view(e: Entity) -> EntityV {
    EntityV {
        name: e.name@,
        key: match e.key {
            Some(k) => Some(key_view(k)),
            None => None,
        },
    }
}

/// How a literal from a `$filter` value or key position is classified, in
/// priority order: quoted string, `@name` option, integer, boolean,
/// decimal, the empty string as `null`, and any other text as a bare
/// string.
pub open spec fn spec_value_of(s: Seq<char>) -> ValueV {
    if s.len() > 0 && s[0] == '\'' && s.last() == '\'' {
        ValueV::StrV(
            crate::chars::trim_end_matches(
                crate::chars::trim_start_matches(s, seq!['\'']),
                seq!['\''],
            ),
        )
    } else if s.len() > 0 && s[0] == '@' {
        ValueV::OptV(crate::chars::trim_start_matches(s, seq!['@']))
    } else {
        match crate::chars::i32_of_chars(s) {
            Some(n) => ValueV::IntV(n),
            None => if s == "true"@ {
                ValueV::BoolV(true)
            } else if s == "false"@ {
                ValueV::BoolV(false)
            } else {
                match crate::bridge::decimal_of(s) {
                    Some(p) => ValueV::DecV(p.0, p.1),
                    None => if s.len() == 0 {
                        ValueV::NullV
                    } else {
                        ValueV::StrV(s)
                    },
                }
            },
        }
    }
}

/// Classify a literal value, trying in order: quoted string, `@name`
/// query option, integer, boolean, decimal, empty (null), bare string.
pub fn extract_value(v: &Vec<char>) -> (r: Value)
    ensures
        value_view(r) == spec_value_of(v@),
        r.wf(),
{
    proof {
        reveal_strlit("'");
        reveal_strlit("@");
        assert("'"@ =~= seq!['\'']);
        assert("@"@ =~= seq!['@']);
    }
    if v.len() > 0 && v[0] == '\'' && v[v.len() - 1] == '\'' {
        let t = trim_end_matches_str(&trim_start_matches_str(v, "'"), "'");
        return Value::String(string_from_chars(&t));
    }
    if v.len() > 0 && v[0] == '@' {
        let t = trim_start_matches_str(v, "@");
        return Value::QueryOption(string_from_chars(&t));
    }
    match crate::chars::parse_i32(v) {
        Some(n) => {
            return Value::Integer(n);
        },
        None => {},
    }
    if chars_eq_str(v, "true") {
        return Value::Boolean(true);
    }
    if chars_eq_str(v, "false") {
        return Value::Boolean(false);
    }
    let as_string = string_from_chars(v);
    match parse_decimal(as_string.as_str()) {
        Some(p) => {
            return Value::Decimal(DecimalValue { mantissa: p.0, scale: p.1 });
        },
        None => {},
    }
    if v.len() == 0 {
        return Value::Null;
    }
    Value::String(as_string)
}

/// How an entity path segment splits into a name and an optional key:
/// `Name('k')` gives a string key with doubled quotes collapsed,
/// `Name(n)` a numeric key, and `Name(f=v)` a named pair whose value is a
/// quoted string, a `@name` option, or an integer. Anything else leaves
/// the whole segment as the name.
pub open spec fn spec_entity_of(s: Seq<char>) -> EntityV {
    if crate::chars::has_sub(s, "('"@) && crate::chars::has_sub(s, "')"@) {
        EntityV {
            name: crate::chars::split_head(s, "('"@),
            key: Some(
                KeyV::KeyStrV(
                    crate::chars::collapse_quotes(
                        crate::chars::trim_end_matches(crate::chars::split_next(s, "('"@), "')"@),
                    ),
                ),
            ),
        }
    } else if crate::chars::has_char(s, '(') && crate::chars::has_char(s, ')') {
        spec_paren_entity_of(s)
    } else {
        EntityV { name: s, key: None }
    }
}

/// The `Name(key)` forms without a quoted string key.
pub open spec fn spec_paren_entity_of(s: Seq<char>) -> EntityV {
    let name = crate::chars::split_head(s, seq!['(']);
    let key_raw = crate::chars::trim_end_matches(
        crate::chars::split_next(s, seq!['(']),
        seq![')'],
    );
    if crate::chars::has_char(key_raw, '=') {
        let f = crate::chars::split_head(key_raw, seq!['=']);
        let val = crate::chars::split_next(key_raw, seq!['=']);
        if val.len() > 0 && val[0] == '\'' && val.last() == '\'' {
            EntityV {
                name: name,
                key: Some(
                    KeyV::KeyPairV(
                        f,
                        ValueV::StrV(
                            crate::chars::trim_end_matches(
                                crate::chars::trim_start_matches(val, seq!['\'']),
                                seq!['\''],
                            ),
                        ),
                    ),
                ),
            }
        } else if val.len() > 0 && val[0] == '@' {
            EntityV {
                name: name,
                key: Some(
                    KeyV::KeyPairV(f, ValueV::OptV(crate::chars::trim_start_matches(val, seq!['@']))),
                ),
            }
        } else {
            match crate::chars::i32_of_chars(val) {
                Some(n) => EntityV { name: name, key: Some(KeyV::KeyPairV(f, ValueV::IntV(n))) },
                None => EntityV { name: name, key: None },
            }
        }
    } else {
        match crate::chars::i32_of_chars(key_raw) {
            Some(n) => EntityV { name: name, key: Some(KeyV::KeyNumV(n)) },
            None => EntityV { name: s, key: None },
        }
    }
}

/// Split `v` at the first occurrence of the pattern `p` (which must occur),
/// yielding the part before it and the part between it and its next
/// occurrence (or the end).
fn split_two(v: &Vec<char>, p: &str, at: usize) -> (r: (Vec<char>, Vec<char>))
    requires
        p@.len() > 0,
        crate::chars::match_at(v@, p@, at as int),
        forall|j: int| 0 <= j < at ==> !crate::chars::match_at(v@, p@, j),
    ensures
        r.0@ == crate::chars::split_head(v@, p@),
        r.1@ == crate::chars::split_next(v@, p@),
{
    proof {
        crate::chars::lemma_first_match_found(v@, p@, at as int);
    }
    let plen: usize = p.unicode_len();
    let total: usize = v.len();
    proof {
        assert(at + plen <= total);
    }
    let head = subchars(v, 0, at);
    let rest = subchars(v, at + plen, total);
    proof {
        assert(head@ =~= v@.take(at as int));
        assert(rest@ =~= v@.skip(at + p@.len()));
    }
    let next = match find_sub(&rest, p) {
        Some(j) => {
            proof {
                crate::chars::lemma_first_match_found(rest@, p@, j as int);
            }
            subchars(&rest, 0, j)
        },
        None => {
            proof {
                crate::chars::lemma_first_match_absent(rest@, p@);
            }
            subchars(&rest, 0, rest.len())
        },
    };
    proof {
        assert(next@ =~= crate::chars::split_head(rest@, p@));
    }
    (head, next)
}

/// Split a path segment of the form `Name(Key)` into its entity reference.
pub fn extract_entity(v: &Vec<char>) -> (e: Entity)
    ensures
        entity_view(e) == spec_entity_of(v@),
        e.wf(),
{
    proof {
        reveal_strlit("('");
        reveal_strlit("')");
        reveal_strlit("(");
        reveal_strlit(")");
        reveal_strlit("=");
        reveal_strlit("'");
        reveal_strlit("@");
        assert("("@ =~= seq!['(']);
        assert(")"@ =~= seq![')']);
        assert("="@ =~= seq!['=']);
        assert("'"@ =~= seq!['\'']);
        assert("@"@ =~= seq!['@']);
    }
    let quoted_open = find_sub(v, "('");
    if quoted_open.is_some() && contains_sub(v, "')") {
        let at = quoted_open.unwrap();
        let (name, key_part) = split_two(v, "('", at);
        let key_trimmed = trim_end_matches_str(&key_part, "')");
        let key = crate::chars::collapse_quotes_in(&key_trimmed);
        proof {
            assert(crate::chars::has_sub(v@, "('"@)) by {
                assert(crate::chars::match_at(v@, "('"@, at as int));
            }
        }
        return Entity {
            name: string_from_chars(&name),
            key: Some(Key::String(string_from_chars(&key))),
        };
    }
    proof {
        if quoted_open is None {
            assert(!crate::chars::has_sub(v@, "('"@));
        }
    }
    let paren_open = find_char(v, '(');
    if paren_open.is_some() && contains_char(v, ')') {
        let at = paren_open.unwrap();
        proof {
            crate::chars::lemma_char_match(v@, '(', at as int);
            assert forall|j: int| 0 <= j < at implies !crate::chars::match_at(
                v@,
                seq!['('],
                j,
            ) by {
                crate::chars::lemma_char_match(v@, '(', j);
            }
            assert(crate::chars::has_char(v@, '(')) by {
                assert(0 <= at < v@.len() && v@[at as int] == '(');
            }
        }
        let (name, key_section) = split_two(v, "(", at);
        let key_raw = trim_end_matches_str(&key_section, ")");
        if contains_char(&key_raw, '=') {
            let eq_at = match find_char(&key_raw, '=') {
                Some(i) => i,
                None => {
                    proof {
                        assert(!crate::chars::has_char(key_raw@, '='));
                        assert(false);
                    }
                    0
                },
            };
            proof {
                crate::chars::lemma_char_match(key_raw@, '=', eq_at as int);
                assert forall|j: int| 0 <= j < eq_at implies !crate::chars::match_at(
                    key_raw@,
                    seq!['='],
                    j,
                ) by {
                    crate::chars::lemma_char_match(key_raw@, '=', j);
                }
            }
            let (f, val) = split_two(&key_raw, "=", eq_at);
            if val.len() > 0 && val[0] == '\'' && val[val.len() - 1] == '\'' {
                let t = trim_end_matches_str(&trim_start_matches_str(&val, "'"), "'");
                return Entity {
                    name: string_from_chars(&name),
                    key: Some(
                        Key::KeyValue(
                            (string_from_chars(&f), Value::String(string_from_chars(&t))),
                        ),
                    ),
                };
            }
            if val.len() > 0 && val[0] == '@' {
                let t = trim_start_matches_str(&val, "@");
                return Entity {
                    name: string_from_chars(&name),
                    key: Some(
                        Key::KeyValue(
                            (string_from_chars(&f), Value::QueryOption(string_from_chars(&t))),
                        ),
                    ),
                };
            }
            match crate::chars::parse_i32(&val) {
                Some(n) => {
                    return Entity {
                        name: string_from_chars(&name),
                        key: Some(Key::KeyValue((string_from_chars(&f), Value::Integer(n)))),
                    };
                },
                None => {},
            }
            return Entity { name: string_from_chars(&name), key: None };
        }
        match crate::chars::parse_i32(&key_raw) {
            Some(n) => {
                return Entity { name: string_from_chars(&name), key: Some(Key::Number(n)) };
            },
            None => {},
        }
        return Entity { name: string_from_chars(v), key: None };
    }
    proof {
        if paren_open is None {
            assert(!crate::chars::has_char(v@, '('));
        }
    }
    Entity { name: string_from_chars(v), key: None }
}

/// `s` with every single quote doubled: the path encoding of a string
/// key, undone by `collapse_quotes` when parsing.
pub open spec fn expand_quotes(s: Seq<char>) -> Seq<char>
    decreases s.len(),
{
    if s.len() == 0 {
        Seq::empty()
    } else {
        (if s[0] == '\'' {
            seq!['\'', '\'']
        } else {
            seq![s[0]]
        }) + expand_quotes(s.skip(1))
    }
}

/// Collapsing doubled quotes undoes expanding them.
pub proof fn lemma_collapse_expand(s: Seq<char>)
    ensures
        crate::chars::collapse_quotes(expand_quotes(s)) == s,
    decreases s.len(),
{
    if s.len() == 0 {
        assert(expand_quotes(s) =~= Seq::<char>::empty());
    } else {
        lemma_collapse_expand(s.skip(1));
        let e = expand_quotes(s);
        if s[0] == '\'' {
            assert(e == seq!['\'', '\''] + expand_quotes(s.skip(1)));
            assert(e.len() >= 2 && e[0] == '\'' && e[1] == '\'');
            assert(e.skip(2) =~= expand_quotes(s.skip(1)));
            assert(seq!['\''] + s.skip(1) =~= s);
        } else {
            assert(e == seq![s[0]] + expand_quotes(s.skip(1)));
            assert(e.len() >= 1 && e[0] == s[0]);
            if e.len() >= 2 && e[0] == '\'' && e[1] == '\'' {
                assert(false);
            }
            assert(e.skip(1) =~= expand_quotes(s.skip(1)));
            assert(seq![s[0]] + s.skip(1) =~= s);
        }
    }
}

/// Expanding quotes introduces no character other than the quote.
proof fn lemma_expand_no_char(s: Seq<char>, c: char)
    requires
        !crate::chars::has_char(s, c),
        c != '\'',
    ensures
        !crate::chars::has_char(expand_quotes(s), c),
    decreases s.len(),
{
    if s.len() > 0 {
        assert(!crate::chars::has_char(s.skip(1), c)) by {
            if crate::chars::has_char(s.skip(1), c) {
                let i = choose|i: int| 0 <= i < s.skip(1).len() && s.skip(1)[i] == c;
                assert(s[i + 1] == c);
            }
        }
        lemma_expand_no_char(s.skip(1), c);
        let e = expand_quotes(s);
        if crate::chars::has_char(e, c) {
            let i = choose|i: int| 0 <= i < e.len() && e[i] == c;
            let head: Seq<char> = if s[0] == '\'' {
                seq!['\'', '\'']
            } else {
                seq![s[0]]
            };
            if i < head.len() {
                assert(e[i] == head[i]);
                assert(s[0] == c || head[i] == '\'');
            } else {
                assert(e[i] == expand_quotes(s.skip(1))[i - head.len()]);
                assert(crate::chars::has_char(expand_quotes(s.skip(1)), c));
            }
        }
    }
}

/// Double the single quotes of `v`.
#[verifier::loop_isolation(false)]
pub fn expand_quotes_in(v: &Vec<char>) -> (r: Vec<char>)
    ensures
        r@ == expand_quotes(v@),
{
    let mut r: Vec<char> = Vec::new();
    let mut i: usize = 0;
    proof {
        assert(v@.skip(0) =~= v@);
        assert(r@ + expand_quotes(v@) =~= expand_quotes(v@));
    }
    while i < v.len()
        invariant
            i <= v@.len(),
            expand_quotes(v@) == r@ + expand_quotes(v@.skip(i as int)),
        decreases v.len() - i,
    {
        proof {
            assert(v@.skip(i as int)[0] == v@[i as int]);
            assert(v@.skip(i as int).skip(1) =~= v@.skip(i + 1));
        }
        let c = v[i];
        if c == '\'' {
            r.push('\'');
            r.push('\'');
        } else {
            r.push(c);
        }
        proof {
            assert(expand_quotes(v@) =~= r@ + expand_quotes(v@.skip(i + 1)));
        }
        i += 1;
    }
    proof {
        assert(v@.skip(v@.len() as int) =~= Seq::<char>::empty());
        assert(r@ + Seq::<char>::empty() =~= r@);
    }
    r
}

impl Value {
    /// Render the value in URL path form: strings quoted, options with
    /// their sigil, integers bare.
    pub fn to_path_text(&self) -> (r: String)
        requires
            self.wf(),
        ensures
            r@ == value_path_text(value_view(*self)),
    {
        match self {
            Value::String(s) => {
                let mut out: Vec<char> = Vec::new();
                out.push('\'');
                let inner = crate::chars::str_chars(s.as_str());
                crate::chars::append_chars(&mut out, &inner);
                out.push('\'');
                proof {
                    assert(out@ =~= seq!['\''] + s@ + seq!['\'']);
                }
                string_from_chars(&out)
            },
            Value::QueryOption(n) => {
                let mut out = String::from_str("@");
                out.append(n.as_str());
                proof {
                    reveal_strlit("@");
                    assert("@"@ =~= seq!['@']);
                }
                out
            },
            other => other.to_text(),
        }
    }
}

impl Key {
    /// Render the key in URL path form: strings quoted with their quotes
    /// doubled, integers bare, pairs as `field=value`.
    pub fn to_path_text(&self) -> (r: String)
        requires
            self.wf(),
        ensures
            r@ == key_path_text(key_view(*self)),
    {
        match self {
            Key::String(s) => {
                let mut out: Vec<char> = Vec::new();
                out.push('\'');
                let esc = expand_quotes_in(&crate::chars::str_chars(s.as_str()));
                crate::chars::append_chars(&mut out, &esc);
                out.push('\'');
                proof {
                    assert(out@ =~= seq!['\''] + expand_quotes(s@) + seq!['\'']);
                }
                string_from_chars(&out)
            },
            Key::Number(n) => {
                let digits = int_to_chars(*n as i128);
                string_from_chars(&digits)
            },
            Key::KeyValue(p) => {
                let mut out = p.0.clone();
                out.append("=");
                let vt = p.1.to_path_text();
                out.append(vt.as_str());
                proof {
                    reveal_strlit("=");
                    assert("="@ =~= seq!['=']);
                    assert(out@ =~= p.0@ + seq!['='] + value_path_text(value_view(p.1)));
                }
                out
            },
        }
    }
}

impl Entity {
    /// Render the entity reference as a URL path segment.
    pub fn to_path_text(&self) -> (r: String)
        requires
            self.wf(),
        ensures
            r@ == entity_path_text(entity_view(*self)),
    {
        match &self.key {
            Some(k) => {
                let mut out = self.name.clone();
                out.append("(");
                let kt = k.to_path_text();
                out.append(kt.as_str());
                out.append(")");
                proof {
                    reveal_strlit("(");
                    reveal_strlit(")");
                    assert("("@ =~= seq!['(']);
                    assert(")"@ =~= seq![')']);
                    assert(out@ =~= self.name@ + seq!['('] + key_path_text(key_view(*k))
                        + seq![')']);
                }
                out
            },
            None => {
                let r = self.name.clone();
                proof {
                    assert(r@ == self.name@);
                }
                r
            },
        }
    }
}

/// The URL path form of a key's literal value: strings quoted, `@name`
/// references with their sigil, integers bare.
pub open spec fn value_path_text(v: ValueV) -> Seq<char> {
    match v {
        ValueV::StrV(s) => seq!['\''] + s + seq!['\''],
        ValueV::OptV(n) => seq!['@'] + n,
        ValueV::IntV(n) => int_chars(n as int),
        ValueV::NullV => "null"@,
        ValueV::BoolV(b) => if b {
            "true"@
        } else {
            "false"@
        },
        ValueV::DecV(m, sc) => decimal_chars(m as int, sc as int),
    }
}

/// The URL path form of a key: strings quoted with their quotes doubled,
/// integers bare, named pairs as `field=value`.
pub open spec fn key_path_text(k: KeyV) -> Seq<char> {
    match k {
        KeyV::KeyStrV(s) => seq!['\''] + expand_quotes(s) + seq!['\''],
        KeyV::KeyNumV(n) => int_chars(n as int),
        KeyV::KeyPairV(f, v) => f + seq!['='] + value_path_text(v),
    }
}

/// The URL path segment of an entity reference: the name, with the key's
/// path form in parentheses when a key is present.
pub open spec fn entity_path_text(e: EntityV) -> Seq<char> {
    match e.key {
        Some(k) => e.name + seq!['('] + key_path_text(k) + seq![')'],
        None => e.name,
    }
}

/// A sequence without the quote character has no doubled quote and starts
/// with no quote, so expanding is the identity there; helper facts about
/// absent characters and matches.
proof fn lemma_no_char_no_match(s: Seq<char>, c: char, p: Seq<char>)
    requires
        !crate::chars::has_char(s, c),
        p.len() > 0,
        p[0] == c,
    ensures
        forall|j: int| !crate::chars::match_at(s, p, j),
{
    assert forall|j: int| !crate::chars::match_at(s, p, j) by {
        if crate::chars::match_at(s, p, j) {
            assert(s.subrange(j, j + p.len() as int)[0] == s[j]);
            assert(s[j] == c);
            assert(crate::chars::has_char(s, c));
        }
    }
}

/// The first match of a pattern starting with `(` in `name + rest` stands
/// at the boundary when the name has no `(` and `rest` starts with the
/// pattern.
proof fn lemma_first_match_boundary(name: Seq<char>, rest: Seq<char>, p: Seq<char>)
    requires
        !crate::chars::has_char(name, '('),
        p.len() > 0,
        p[0] == '(',
        p.len() <= rest.len(),
        rest.subrange(0, p.len() as int) == p,
    ensures
        crate::chars::first_match(name + rest, p) == Some(name.len() as int),
        crate::chars::has_sub(name + rest, p),
{
    let t = name + rest;
    assert(crate::chars::match_at(t, p, name.len() as int)) by {
        assert(t.subrange(name.len() as int, name.len() as int + p.len() as int) =~= rest.subrange(
            0,
            p.len() as int,
        ));
    }
    assert forall|j: int| 0 <= j < name.len() implies !crate::chars::match_at(t, p, j) by {
        if crate::chars::match_at(t, p, j) {
            assert(t.subrange(j, j + p.len() as int)[0] == t[j]);
            assert(t[j] == name[j]);
            assert(name[j] == '(');
            assert(crate::chars::has_char(name, '('));
        }
    }
    crate::chars::lemma_first_match_found(t, p, name.len() as int);
}

/// Trimming the closing text off `x + close` gives back `x` when `x` has
/// no closing parenthesis.
proof fn lemma_trim_close(x: Seq<char>, p: Seq<char>)
    requires
        !crate::chars::has_char(x, ')'),
        p.len() > 0,
        p.last() == ')',
    ensures
        crate::chars::trim_end_matches(x + p, p) == x,
{
    let t = x + p;
    assert(crate::chars::ends_with(t, p)) by {
        assert(t.skip(t.len() - p.len()) =~= p);
    }
    assert(t.take(t.len() - p.len()) =~= x);
    assert(!crate::chars::ends_with(x, p)) by {
        if crate::chars::ends_with(x, p) {
            assert(x.skip(x.len() - p.len())[p.len() - 1] == x[x.len() - 1]);
            assert(x[x.len() - 1] == ')');
            assert(crate::chars::has_char(x, ')'));
        }
    }
    assert(crate::chars::trim_end_matches(t, p) == crate::chars::trim_end_matches(
        t.take(t.len() - p.len()),
        p,
    ));
    assert(crate::chars::trim_end_matches(x, p) == x);
}

/// Round trip on path keys: an entity reference rendered into its URL
/// path form parses back to the same reference. The name must be free of
/// parentheses, string keys must be free of parentheses, and a named
/// pair's field and value must be free of the delimiters that the pair
/// syntax itself uses.
pub proof fn lemma_path_key_round_trip(e: EntityV)
    requires
        !crate::chars::has_char(e.name, '('),
        !crate::chars::has_char(e.name, ')'),
        match e.key {
            None => true,
            Some(k) => match k {
                KeyV::KeyStrV(s) => !crate::chars::has_char(s, '(') && !crate::chars::has_char(
                    s,
                    ')',
                ),
                KeyV::KeyNumV(_) => true,
                KeyV::KeyPairV(f, v) => {
                    &&& !crate::chars::has_char(f, '(')
                    &&& !crate::chars::has_char(f, ')')
                    &&& !crate::chars::has_char(f, '=')
                    &&& !crate::chars::has_char(f, '\'')
                    &&& (f.len() > 0 ==> f[0] != '@')
                    &&& match v {
                        ValueV::StrV(s) => {
                            &&& !crate::chars::has_char(s, '(')
                            &&& !crate::chars::has_char(s, ')')
                            &&& !crate::chars::has_char(s, '=')
                            &&& !crate::chars::has_char(s, '\'')
                        },
                        ValueV::OptV(n) => {
                            &&& !crate::chars::has_char(n, '(')
                            &&& !crate::chars::has_char(n, ')')
                            &&& !crate::chars::has_char(n, '=')
                            &&& (n.len() > 0 ==> n[0] != '@')
                            &&& n.len() > 0 ==> n[0] != '\''
                        },
                        ValueV::IntV(_) => true,
                        _ => false,
                    }
                },
            },
        },
    ensures
        spec_entity_of(entity_path_text(e)) == e,
{
    proof_path_key_round_trip(e);
}

proof fn proof_path_key_round_trip(e: EntityV)
    requires
        !crate::chars::has_char(e.name, '('),
        !crate::chars::has_char(e.name, ')'),
        match e.key {
            None => true,
            Some(k) => match k {
                KeyV::KeyStrV(s) => !crate::chars::has_char(s, '(') && !crate::chars::has_char(
                    s,
                    ')',
                ),
                KeyV::KeyNumV(_) => true,
                KeyV::KeyPairV(f, v) => {
                    &&& !crate::chars::has_char(f, '(')
                    &&& !crate::chars::has_char(f, ')')
                    &&& !crate::chars::has_char(f, '=')
                    &&& !crate::chars::has_char(f, '\'')
                    &&& (f.len() > 0 ==> f[0] != '@')
                    &&& match v {
                        ValueV::StrV(s) => {
                            &&& !crate::chars::has_char(s, '(')
                            &&& !crate::chars::has_char(s, ')')
                            &&& !crate::chars::has_char(s, '=')
                            &&& !crate::chars::has_char(s, '\'')
                        },
                        ValueV::OptV(n) => {
                            &&& !crate::chars::has_char(n, '(')
                            &&& !crate::chars::has_char(n, ')')
                            &&& !crate::chars::has_char(n, '=')
                            &&& (n.len() > 0 ==> n[0] != '@')
                            &&& n.len() > 0 ==> n[0] != '\''
                        },
                        ValueV::IntV(_) => true,
                        _ => false,
                    }
                },
            },
        },
    ensures
        spec_entity_of(entity_path_text(e)) == e,
{
    reveal_strlit("('");
    reveal_strlit("')");
    assert("('"@.len() == 2 && "('"@[0] == '(' && "('"@[1] == '\'');
    assert("')"@.len() == 2 && "')"@[0] == '\'' && "')"@[1] == ')');
    let t = entity_path_text(e);
    match e.key {
        None => {
            lemma_no_char_no_match(t, '(', "('"@);
            assert(!crate::chars::has_sub(t, "('"@));
            assert(!crate::chars::has_char(t, '('));
        },
        Some(k) => {
            match k {
                KeyV::KeyStrV(s) => {
                    let esc = expand_quotes(s);
                    lemma_expand_no_char(s, '(');
                    lemma_expand_no_char(s, ')');
                    let rest = seq!['('] + seq!['\''] + esc + seq!['\''] + seq![')'];
                    assert(t =~= e.name + rest);
                    assert(rest.subrange(0, 2) =~= "('"@);
                    lemma_first_match_boundary(e.name, rest, "('"@);
                    assert(crate::chars::has_sub(t, "')"@)) by {
                        assert(crate::chars::match_at(t, "')"@, t.len() - 2)) by {
                            assert(t.subrange(t.len() - 2, t.len() as int) =~= "')"@);
                        }
                    }
                    assert(crate::chars::split_head(t, "('"@) =~= e.name) by {
                        assert(t.take(e.name.len() as int) =~= e.name);
                    }
                    let rest2 = t.skip(e.name.len() as int + 2);
                    assert(rest2 =~= esc + "')"@);
                    lemma_no_char_no_match(rest2, '(', "('"@);
                    crate::chars::lemma_first_match_absent(rest2, "('"@);
                    assert(!crate::chars::has_sub(rest2, "('"@)) by {
                        if crate::chars::has_sub(rest2, "('"@) {
                            let j = choose|j: int| crate::chars::match_at(rest2, "('"@, j);
                            assert(rest2.subrange(j, j + 2)[0] == rest2[j]);
                            assert(crate::chars::has_char(rest2, '('));
                            let i = choose|i: int| 0 <= i < rest2.len() && rest2[i] == '(';
                            if i < esc.len() {
                                assert(esc[i] == '(');
                            } else {
                                assert(rest2[i] == "')"@[i - esc.len()]);
                            }
                            assert(false);
                        }
                    }
                    assert(crate::chars::split_next(t, "('"@) == rest2);
                    lemma_trim_close(esc, "')"@);
                    lemma_collapse_expand(s);
                },
                KeyV::KeyNumV(n) => {
                    crate::chars::lemma_int_chars_roundtrip(n);
                    let digits = int_chars(n as int);
                    assert(!crate::chars::has_char(digits, '(') && !crate::chars::has_char(
                        digits,
                        ')',
                    ) && !crate::chars::has_char(digits, '=') && !crate::chars::has_char(
                        digits,
                        '\'',
                    )) by {
                        lemma_int_chars_plain(n as int);
                    }
                    let rest = seq!['('] + digits + seq![')'];
                    assert(t =~= e.name + rest);
                    assert(!crate::chars::has_sub(t, "('"@)) by {
                        if crate::chars::has_sub(t, "('"@) {
                            let j = choose|j: int| crate::chars::match_at(t, "('"@, j);
                            assert(t.subrange(j, j + 2)[0] == t[j] && t.subrange(j, j + 2)[1] == t[j
                                + 1]);
                            assert(t[j] == '(' && t[j + 1] == '\'');
                            lemma_paren_only_at(e.name, rest, j);
                            assert(t[j + 1] == rest[1]);
                            assert(rest[1] == digits[0]);
                            assert(digits[0] != '\'');
                        }
                    }
                    assert(crate::chars::has_char(t, '(')) by {
                        assert(t[e.name.len() as int] == '(');
                    }
                    assert(crate::chars::has_char(t, ')')) by {
                        assert(t[t.len() - 1] == ')');
                    }
                    lemma_paren_entity_num(e, digits, n);
                },
                KeyV::KeyPairV(f, v) => {
                    let vp = value_path_text(v);
                    lemma_value_path_plain(v);
                    let key_raw = f + seq!['='] + vp;
                    let rest = seq!['('] + key_raw + seq![')'];
                    assert(t =~= e.name + rest);
                    assert(!crate::chars::has_sub(t, "('"@)) by {
                        if crate::chars::has_sub(t, "('"@) {
                            let j = choose|j: int| crate::chars::match_at(t, "('"@, j);
                            assert(t.subrange(j, j + 2)[0] == t[j] && t.subrange(j, j + 2)[1] == t[j
                                + 1]);
                            assert(t[j] == '(' && t[j + 1] == '\'');
                            lemma_paren_only_at(e.name, rest, j);
                            assert(t[j + 1] == rest[1]);
                            if f.len() > 0 {
                                assert(rest[1] == f[0]);
                                assert(f[0] == '\'');
                                assert(crate::chars::has_char(f, '\''));
                            } else {
                                assert(rest[1] == '=');
                            }
                        }
                    }
                    assert(crate::chars::has_char(t, '(')) by {
                        assert(t[e.name.len() as int] == '(');
                    }
                    assert(crate::chars::has_char(t, ')')) by {
                        assert(t[t.len() - 1] == ')');
                    }
                    lemma_paren_entity_pair(e, f, v, vp);
                },
            }
        },
    }
}

/// In `name + rest` with a paren-free name and a single opening paren at
/// the head of `rest`, a `(` can only stand at the boundary.
proof fn lemma_paren_only_at(name: Seq<char>, rest: Seq<char>, j: int)
    requires
        !crate::chars::has_char(name, '('),
        rest.len() >= 1,
        rest[0] == '(',
        forall|i: int| 1 <= i < rest.len() ==> #[trigger] rest[i] != '(',
        0 <= j < (name + rest).len(),
        (name + rest)[j] == '(',
    ensures
        j == name.len(),
{
    let t = name + rest;
    if j < name.len() {
        assert(t[j] == name[j]);
        assert(crate::chars::has_char(name, '('));
    } else if j > name.len() {
        assert(t[j] == rest[j - name.len()]);
    }
}

/// Rendered digits hold none of the key syntax's delimiters.
proof fn lemma_int_chars_plain(n: int)
    ensures
        !crate::chars::has_char(int_chars(n), '('),
        !crate::chars::has_char(int_chars(n), ')'),
        !crate::chars::has_char(int_chars(n), '='),
        !crate::chars::has_char(int_chars(n), '\''),
        !crate::chars::has_char(int_chars(n), '@'),
        int_chars(n).len() >= 1,
        int_chars(n)[0] != '\'',
        int_chars(n)[0] != '@',
{
    let mag: int = if n < 0 {
        -n
    } else {
        n
    };
    crate::chars::lemma_dec_digits_value(mag);
    let d = crate::chars::dec_digits(mag);
    assert(forall|i: int|
        0 <= i < d.len() ==> crate::chars::is_digit(#[trigger] d[i]));
    let s = int_chars(n);
    assert forall|i: int| 0 <= i < s.len() implies #[trigger] s[i] != '(' && s[i] != ')' && s[i]
        != '=' && s[i] != '\'' && s[i] != '@' by {
        if n < 0 {
            if i == 0 {
                assert(s[i] == '-');
            } else {
                assert(s[i] == d[i - 1]);
                assert(crate::chars::is_digit(s[i]));
            }
        } else {
            assert(s[i] == d[i]);
            assert(crate::chars::is_digit(s[i]));
        }
    }
    assert(!crate::chars::has_char(s, '('));
    assert(!crate::chars::has_char(s, ')'));
    assert(!crate::chars::has_char(s, '='));
    assert(!crate::chars::has_char(s, '\''));
    assert(!crate::chars::has_char(s, '@'));
    if n < 0 {
        assert(s[0] == '-');
    } else {
        assert(s[0] == d[0]);
    }
}

/// A path-rendered pair value holds none of the pair syntax's delimiters,
/// for the value kinds keys can carry.
proof fn lemma_value_path_plain(v: ValueV)
    requires
        match v {
            ValueV::StrV(s) => !crate::chars::has_char(s, '(') && !crate::chars::has_char(s, ')')
                && !crate::chars::has_char(s, '=') && !crate::chars::has_char(s, '\''),
            ValueV::OptV(n) => !crate::chars::has_char(n, '(') && !crate::chars::has_char(n, ')')
                && !crate::chars::has_char(n, '='),
            ValueV::IntV(_) => true,
            _ => false,
        },
    ensures
        !crate::chars::has_char(value_path_text(v), '('),
        !crate::chars::has_char(value_path_text(v), ')'),
        !crate::chars::has_char(value_path_text(v), '='),
        value_path_text(v).len() >= 1,
{
    let vp = value_path_text(v);
    match v {
        ValueV::StrV(s) => {
            assert forall|i: int| 0 <= i < vp.len() implies #[trigger] vp[i] != '(' && vp[i] != ')'
                && vp[i] != '=' by {
                if i == 0 || i == vp.len() - 1 {
                    assert(vp[i] == '\'');
                } else {
                    assert(vp[i] == s[i - 1]);
                }
            }
        },
        ValueV::OptV(n) => {
            assert forall|i: int| 0 <= i < vp.len() implies #[trigger] vp[i] != '(' && vp[i] != ')'
                && vp[i] != '=' by {
                if i == 0 {
                    assert(vp[i] == '@');
                } else {
                    assert(vp[i] == n[i - 1]);
                }
            }
        },
        ValueV::IntV(n) => {
            lemma_int_chars_plain(n as int);
        },
        _ => {},
    }
}

/// The paren branch of entity extraction on a rendered numeric key.
#[verifier::rlimit(100)]
#[verifier::spinoff_prover]
proof fn lemma_paren_entity_num(e: EntityV, digits: Seq<char>, n: i32)
    requires
        e.key == Some(KeyV::KeyNumV(n)),
        digits == int_chars(n as int),
        !crate::chars::has_char(e.name, '('),
        !crate::chars::has_char(e.name, ')'),
        crate::chars::i32_of_chars(digits) == Some(n),
        !crate::chars::has_char(digits, '('),
        !crate::chars::has_char(digits, ')'),
        !crate::chars::has_char(digits, '='),
    ensures
        spec_paren_entity_of(entity_path_text(e)) == e,
{
    let t = entity_path_text(e);
    let rest = seq!['('] + digits + seq![')'];
    assert(t =~= e.name + rest);
    assert(rest.subrange(0, 1) =~= seq!['(']);
    lemma_first_match_boundary(e.name, rest, seq!['(']);
    assert(crate::chars::split_head(t, seq!['(']) =~= e.name) by {
        assert(t.take(e.name.len() as int) =~= e.name);
    }
    let rest2 = t.skip(e.name.len() as int + 1);
    assert(rest2 =~= digits + seq![')']);
    lemma_no_char_no_match(rest2, '(', seq!['(']);
    crate::chars::lemma_first_match_absent(rest2, seq!['(']);
    assert(!crate::chars::has_sub(rest2, seq!['('])) by {
        if crate::chars::has_sub(rest2, seq!['(']) {
            let j = choose|j: int| crate::chars::match_at(rest2, seq!['('], j);
        }
    }
    assert(crate::chars::split_next(t, seq!['(']) == rest2);
    lemma_trim_close(digits, seq![')']);
    assert(!crate::chars::has_char(digits, '='));
}

/// The paren branch of entity extraction on a rendered named pair.
#[verifier::rlimit(100)]
#[verifier::spinoff_prover]
proof fn lemma_paren_entity_pair(e: EntityV, f: Seq<char>, v: ValueV, vp: Seq<char>)
    requires
        e.key == Some(KeyV::KeyPairV(f, v)),
        vp == value_path_text(v),
        !crate::chars::has_char(e.name, '('),
        !crate::chars::has_char(e.name, ')'),
        !crate::chars::has_char(f, '('),
        !crate::chars::has_char(f, ')'),
        !crate::chars::has_char(f, '='),
        !crate::chars::has_char(f, '\''),
        (f.len() > 0 ==> f[0] != '@'),
        !crate::chars::has_char(vp, '('),
        !crate::chars::has_char(vp, ')'),
        !crate::chars::has_char(vp, '='),
        vp.len() >= 1,
        match v {
            ValueV::StrV(s) => !crate::chars::has_char(s, '\'') && vp == seq!['\''] + s
                + seq!['\''],
            ValueV::OptV(n) => (n.len() > 0 ==> n[0] != '@') && (n.len() > 0 ==> n[0] != '\'')
                && vp == seq!['@'] + n,
            ValueV::IntV(n2) => vp == int_chars(n2 as int),
            _ => false,
        },
    ensures
        spec_paren_entity_of(entity_path_text(e)) == e,
{
    let t = entity_path_text(e);
    let key_raw = f + seq!['='] + vp;
    let rest = seq!['('] + key_raw + seq![')'];
    assert(t =~= e.name + rest);
    assert(rest.subrange(0, 1) =~= seq!['(']);
    lemma_first_match_boundary(e.name, rest, seq!['(']);
    assert(crate::chars::split_head(t, seq!['(']) =~= e.name) by {
        assert(t.take(e.name.len() as int) =~= e.name);
    }
    let rest2 = t.skip(e.name.len() as int + 1);
    assert(rest2 =~= key_raw + seq![')']);
    assert(!crate::chars::has_char(key_raw, '(')) by {
        if crate::chars::has_char(key_raw, '(') {
            let i = choose|i: int| 0 <= i < key_raw.len() && key_raw[i] == '(';
            if i < f.len() {
                assert(f[i] == '(');
            } else if i == f.len() {
                assert(key_raw[i] == '=');
            } else {
                assert(key_raw[i] == vp[i - f.len() - 1]);
                assert(crate::chars::has_char(vp, '('));
            }
        }
    }
    assert(!crate::chars::has_char(rest2, '(')) by {
        if crate::chars::has_char(rest2, '(') {
            let i = choose|i: int| 0 <= i < rest2.len() && rest2[i] == '(';
            if i < key_raw.len() {
                assert(key_raw[i] == '(');
            } else {
                assert(rest2[i] == ')');
            }
        }
    }
    lemma_no_char_no_match(rest2, '(', seq!['(']);
    crate::chars::lemma_first_match_absent(rest2, seq!['(']);
    assert(crate::chars::split_next(t, seq!['(']) == rest2);
    assert(!crate::chars::has_char(key_raw, ')')) by {
        if crate::chars::has_char(key_raw, ')') {
            let i = choose|i: int| 0 <= i < key_raw.len() && key_raw[i] == ')';
            if i < f.len() {
                assert(f[i] == ')');
            } else if i == f.len() {
                assert(key_raw[i] == '=');
            } else {
                assert(key_raw[i] == vp[i - f.len() - 1]);
                assert(crate::chars::has_char(vp, ')'));
            }
        }
    }
    lemma_trim_close(key_raw, seq![')']);
    assert(crate::chars::has_char(key_raw, '=')) by {
        assert(key_raw[f.len() as int] == '=');
    }
    assert forall|j: int| 0 <= j < f.len() implies !crate::chars::match_at(
        key_raw,
        seq!['='],
        j,
    ) by {
        crate::chars::lemma_char_match(key_raw, '=', j);
        if key_raw[j] == '=' {
            assert(f[j] == '=');
            assert(crate::chars::has_char(f, '='));
        }
    }
    assert(crate::chars::match_at(key_raw, seq!['='], f.len() as int)) by {
        crate::chars::lemma_char_match(key_raw, '=', f.len() as int);
    }
    crate::chars::lemma_first_match_found(key_raw, seq!['='], f.len() as int);
    assert(crate::chars::split_head(key_raw, seq!['=']) =~= f) by {
        assert(key_raw.take(f.len() as int) =~= f);
    }
    let after_eq = key_raw.skip(f.len() as int + 1);
    assert(after_eq =~= vp);
    assert forall|j: int| !crate::chars::match_at(vp, seq!['='], j) by {
        crate::chars::lemma_char_match(vp, '=', j);
        if 0 <= j < vp.len() && vp[j] == '=' {
            assert(crate::chars::has_char(vp, '='));
        }
    }
    crate::chars::lemma_first_match_absent(vp, seq!['=']);
    assert(crate::chars::split_next(key_raw, seq!['=']) == vp);
    match v {
        ValueV::StrV(s) => {
            assert(vp[0] == '\'' && vp.last() == '\'');
            let q = seq!['\''];
            assert(crate::chars::starts_with(vp, q)) by {
                assert(vp.take(1) =~= q);
            }
            assert(vp.skip(1) =~= s + q);
            assert(crate::chars::trim_start_matches(vp, q) == crate::chars::trim_start_matches(
                s + q,
                q,
            ));
            if s.len() > 0 {
                assert(!crate::chars::starts_with(s + q, q)) by {
                    if crate::chars::starts_with(s + q, q) {
                        assert((s + q).take(1)[0] == (s + q)[0]);
                        assert((s + q)[0] == s[0]);
                        assert(s[0] == '\'');
                        assert(crate::chars::has_char(s, '\''));
                    }
                }
                assert(crate::chars::trim_start_matches(s + q, q) == s + q);
                assert(crate::chars::ends_with(s + q, q)) by {
                    assert((s + q).skip((s + q).len() - 1) =~= q);
                }
                assert((s + q).take((s + q).len() - 1) =~= s);
                assert(crate::chars::trim_end_matches(s + q, q)
                    == crate::chars::trim_end_matches(s, q));
                assert(!crate::chars::ends_with(s, q)) by {
                    if crate::chars::ends_with(s, q) {
                        assert(s.skip(s.len() - 1)[0] == s[s.len() - 1]);
                        assert(s[s.len() - 1] == '\'');
                        assert(crate::chars::has_char(s, '\''));
                    }
                }
                assert(crate::chars::trim_end_matches(s, q) == s);
            } else {
                assert(s + q =~= q);
                assert(crate::chars::starts_with(q, q)) by {
                    assert(q.take(1) =~= q);
                }
                assert(q.skip(1) =~= Seq::<char>::empty());
                assert(crate::chars::trim_start_matches(q, q)
                    == crate::chars::trim_start_matches(Seq::<char>::empty(), q));
                assert(crate::chars::trim_start_matches(Seq::<char>::empty(), q)
                    == Seq::<char>::empty());
                assert(crate::chars::trim_end_matches(Seq::<char>::empty(), q)
                    == Seq::<char>::empty());
                assert(crate::chars::trim_end_matches(
                    crate::chars::trim_start_matches(vp, q),
                    q,
                ) =~= s);
            }
        },
        ValueV::OptV(n) => {
            assert(vp[0] == '@');
            if n.len() == 0 {
                assert(vp =~= seq!['@']);
                assert(vp.last() == '@');
            } else {
                assert(vp.last() == n[n.len() - 1]);
            }
            assert(!(vp.len() > 0 && vp[0] == '\'' && vp.last() == '\''));
            let a = seq!['@'];
            assert(crate::chars::starts_with(vp, a)) by {
                assert(vp.take(1) =~= a);
            }
            assert(vp.skip(1) =~= n);
            assert(crate::chars::trim_start_matches(vp, a) == crate::chars::trim_start_matches(
                n,
                a,
            ));
            if n.len() > 0 {
                assert(!crate::chars::starts_with(n, a)) by {
                    if crate::chars::starts_with(n, a) {
                        assert(n.take(1)[0] == n[0]);
                    }
                }
                assert(crate::chars::trim_start_matches(n, a) == n);
            } else {
                assert(n =~= Seq::<char>::empty());
                assert(crate::chars::trim_start_matches(Seq::<char>::empty(), a)
                    == Seq::<char>::empty());
            }
        },
        ValueV::IntV(n2) => {
            lemma_int_chars_plain(n2 as int);
            assert(vp[0] != '\'');
            assert(vp[0] != '@');
            crate::chars::lemma_int_chars_roundtrip(n2);
        },
        _ => {},
    }
}

} // verus!
