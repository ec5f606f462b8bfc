//! Value codec: typed values to and from the wire representation.
//!
//! The supported type universe is closed, so serialization cannot fail;
//! decoding is fallible, since a wire value may not match the shape the
//! requested target expects.

use vstd::prelude::*;
use crate::error::Error;
use crate::rpc::{Value, ValueModel};

verus! {

/// The closed universe of typed values this codec supports.
#[derive(Debug, PartialEq, Eq)]
pub enum TypedValue {
    /// An unsigned quantity, carried on the wire as a "0x"-prefixed
    /// hexadecimal string.
    Quantity(u64),
    /// A boolean, carried as a wire boolean.
    Boolean(bool),
    /// A piece of text, carried as a wire string.
    Text(String),
    /// A wire value taken as-is.
    Raw(Value),
}

/// Mathematical model of a typed value.
pub enum TypedModel {
    Quantity(u64),
    Boolean(bool),
    Text(Seq<char>),
    Raw(ValueModel),
}

impl View for TypedValue {
    type V = TypedModel;

    open spec fn view(&self) -> TypedModel {
        match *self {
            TypedValue::Quantity(n) => TypedModel::Quantity(n),
            TypedValue::Boolean(b) => TypedModel::Boolean(b),
            TypedValue::Text(s) => TypedModel::Text(s@),
            TypedValue::Raw(v) => TypedModel::Raw(v@),
        }
    }
}

/// The target shape a decode aims at; the runtime stand-in for the type
/// parameter of a generic decoder.
#[derive(Debug, Clone, Copy, PartialEq, Eq, Structural)]
pub enum TargetKind {
    Quantity,
    Boolean,
    Text,
    Raw,
}

impl TypedModel {
    /// The target kind this value decodes from.
    pub open spec fn kind(self) -> TargetKind {
        match self {
            TypedModel::Quantity(_) => TargetKind::Quantity,
            TypedModel::Boolean(_) => TargetKind::Boolean,
            TypedModel::Text(_) => TargetKind::Text,
            TypedModel::Raw(_) => TargetKind::Raw,
        }
    }
}

/// The character for one hexadecimal digit, lower case.
pub open spec fn hex_digit_char(d: int) -> char {
    if d < 10 {
        ((48 + d) as u8) as char
    } else {
        ((87 + d) as u8) as char
    }
}

/// The shortest hexadecimal spelling of `n`, lower case, no leading zeros.
pub open spec fn hex_digits(n: nat) -> Seq<char>
    decreases n,
{
    if n < 16 {
        seq![hex_digit_char(n as int)]
    } else {
        hex_digits(n / 16).push(hex_digit_char((n % 16) as int))
    }
}

/// The wire text of a quantity: "0x" followed by its hexadecimal digits.
pub open spec fn quantity_text(n: nat) -> Seq<char> {
    seq!['0', 'x'] + hex_digits(n)
}

/// The numeric value of one hexadecimal digit character, upper or lower
/// case; `None` if the character is no hexadecimal digit.
pub open spec fn hex_char_val(c: char) -> Option<int> {
    let u = c as u32;
    if 48 <= u <= 57 {
        Some(u - 48)
    } else if 97 <= u <= 102 {
        Some(u - 87)
    } else if 65 <= u <= 70 {
        Some(u - 55)
    } else {
        None
    }
}

/// The value of a run of hexadecimal digit characters, most significant
/// first; an empty run has value 0, a run holding a character that is no
/// hexadecimal digit has `None`.
pub open spec fn hex_digits_val(s: Seq<char>) -> Option<nat>
    decreases s.len(),
{
    if s.len() == 0 {
        Some(0)
    } else {
        match (hex_digits_val(s.drop_last()), hex_char_val(s.last())) {
            (Some(v), Some(d)) => Some((16 * v + d) as nat),
            _ => None,
        }
    }
}

/// The quantity a piece of wire text denotes: "0x", at least one digit,
/// value within the unsigned 64-bit range; `None` otherwise.
pub open spec fn quantity_of_text(s: Seq<char>) -> Option<u64> {
    if s.len() > 2 && s[0] == '0' && s[1] == 'x' {
        match hex_digits_val(s.skip(2)) {
            Some(v) => if v <= u64::MAX { Some(v as u64) } else { None },
            None => None,
        }
    } else {
        None
    }
}

/// What serializing a typed value yields on the wire.
pub open spec fn serialized(t: TypedModel) -> ValueModel {
    match t {
        TypedModel::Quantity(n) => ValueModel::Str(quantity_text(n as nat)),
        TypedModel::Boolean(b) => ValueModel::Bool(b),
        TypedModel::Text(s) => ValueModel::Str(s),
        TypedModel::Raw(v) => v,
    }
}

/// What decoding a wire value at a target kind yields: the typed value,
/// or `None` when the wire value does not have the expected shape.
pub open spec fn decoded(kind: TargetKind, v: ValueModel) -> Option<TypedModel> {
    match kind {
        TargetKind::Quantity => match v {
            ValueModel::Str(s) => match quantity_of_text(s) {
                Some(n) => Some(TypedModel::Quantity(n)),
                None => None,
            },
            _ => None,
        },
        TargetKind::Boolean => match v {
            ValueModel::Bool(b) => Some(TypedModel::Boolean(b)),
            _ => None,
        },
        TargetKind::Text => match v {
            ValueModel::Str(s) => Some(TypedModel::Text(s)),
            _ => None,
        },
        TargetKind::Raw => Some(TypedModel::Raw(v)),
    }
}

proof fn lemma_run_step(t: Seq<char>, j: int)
    requires
        0 <= j < t.len(),
    ensures
        hex_digits_val(t.take(j + 1)) == match (hex_digits_val(t.take(j)), hex_char_val(t[j])) {
            (Some(v), Some(d)) => Some((16 * v + d) as nat),
            _ => None::<nat>,
        },
{
    assert(t.take(j + 1).drop_last() =~= t.take(j));
    assert(t.take(j + 1).last() == t[j]);
}

proof fn lemma_run_none(t: Seq<char>, j: int)
    requires
        0 <= j <= t.len(),
        hex_digits_val(t.take(j)) is None,
    ensures
        hex_digits_val(t) is None,
    decreases t.len() - j,
{
    if j == t.len() {
        assert(t.take(j) =~= t);
    } else {
        lemma_run_step(t, j);
        lemma_run_none(t, j + 1);
    }
}

proof fn lemma_run_grow(t: Seq<char>, j: int, p: nat)
    requires
        0 <= j < t.len(),
        hex_digits_val(t.take(j)) == Some(p),
        hex_digits_val(t) is Some,
    ensures
        hex_digits_val(t)->Some_0 >= 16 * p,
    decreases t.len() - j,
{
    lemma_run_step(t, j);
    if hex_digits_val(t.take(j + 1)) is None {
        lemma_run_none(t, j + 1);
    } else {
        let p1 = hex_digits_val(t.take(j + 1))->Some_0;
        assert(p1 >= 16 * p);
        if j + 1 == t.len() {
            assert(t.take(j + 1) =~= t);
        } else {
            lemma_run_grow(t, j + 1, p1);
        }
    }
}

proof fn lemma_hex_digit_roundtrip(d: int)
    requires
        0 <= d < 16,
    ensures
        hex_char_val(hex_digit_char(d)) == Some(d),
{
}

proof fn lemma_hex_roundtrip(n: nat)
    ensures
        hex_digits_val(hex_digits(n)) == Some(n),
        hex_digits(n).len() >= 1,
    decreases n,
{
    if n < 16 {
        lemma_hex_digit_roundtrip(n as int);
        assert(hex_digits_val(Seq::<char>::empty()) == Some(0nat));
        assert(hex_digits(n).drop_last() =~= Seq::<char>::empty());
        assert(hex_digits(n).last() == hex_digit_char(n as int));
    } else {
        lemma_hex_roundtrip(n / 16);
        lemma_hex_digit_roundtrip((n % 16) as int);
        assert(hex_digits(n).drop_last() =~= hex_digits(n / 16));
        vstd::arithmetic::div_mod::lemma_fundamental_div_mod(n as int, 16);
    }
}

/// Decoding undoes serialization: every typed value of the supported
/// universe comes back unchanged from its own wire representation.
pub proof fn lemma_round_trip(t: TypedModel)
    ensures
        decoded(t.kind(), serialized(t)) == Some(t),
{
    match t {
        TypedModel::Quantity(n) => {
            lemma_hex_roundtrip(n as nat);
            assert(quantity_text(n as nat).skip(2) =~= hex_digits(n as nat));
            assert(quantity_of_text(quantity_text(n as nat)) == Some(n));
        },
        _ => {},
    }
}

pub(crate) fn hex_digit_char_exec(d: u8) -> (c: char)
    requires
        d < 16,
    ensures
        c == hex_digit_char(d as int),
{
    if d < 10 {
        (48 + d) as char
    } else {
        (87 + d) as char
    }
}

fn push_hex_digits(n: u64, out: &mut String)
    ensures
        final(out)@ == old(out)@ + hex_digits(n as nat),
    decreases n,
{
    if n < 16 {
        crate::strutil::push_char(out, hex_digit_char_exec(n as u8));
        proof {
            assert(final(out)@ =~= old(out)@ + hex_digits(n as nat));
        }
    } else {
        push_hex_digits(n / 16, out);
        crate::strutil::push_char(out, hex_digit_char_exec((n % 16) as u8));
        proof {
            assert(final(out)@ =~= old(out)@ + hex_digits(n as nat));
        }
    }
}

/// Serialize a typed value into its wire representation. The supported
/// universe is closed, so this cannot fail.
pub fn serialize(t: TypedValue) -> (r: Value)
    ensures
        r@ == serialized(t@),
{
    match t {
        TypedValue::Quantity(n) => {
            let mut s = String::new();
            s.append("0x");
            push_hex_digits(n, &mut s);
            proof {
                reveal_strlit("0x");
                assert(("0x")@ =~= seq!['0', 'x']);
                assert(s@ =~= quantity_text(n as nat));
            }
            Value::Str(s)
        },
        TypedValue::Boolean(b) => Value::Bool(b),
        TypedValue::Text(s) => Value::Str(s),
        TypedValue::Raw(v) => v,
    }
}

fn hex_char_val_exec(c: char) -> (r: Option<u8>)
    ensures
        r matches Some(d) ==> hex_char_val(c) == Some(d as int),
        r is None ==> hex_char_val(c) is None,
{
    let u = c as u32;
    if 48 <= u && u <= 57 {
        Some((u - 48) as u8)
    } else if 97 <= u && u <= 102 {
        Some((u - 87) as u8)
    } else if 65 <= u && u <= 70 {
        Some((u - 55) as u8)
    } else {
        None
    }
}

fn parse_quantity(s: &String) -> (r: Option<u64>)
    ensures
        r == quantity_of_text(s@),
{
    let len = s.as_str().unicode_len();
    if len <= 2 {
        return None;
    }
    if s.as_str().get_char(0) != '0' || s.as_str().get_char(1) != 'x' {
        return None;
    }
    let ghost t = s@.skip(2);
    let mut acc: u64 = 0;
    let mut i: usize = 2;
    proof {
        assert(t.take(0) =~= Seq::<char>::empty());
    }
    while i < len
        invariant
            2 <= i <= len,
            len == s@.len(),
            len > 2,
            s@[0] == '0',
            s@[1] == 'x',
            t == s@.skip(2),
            hex_digits_val(t.take(i - 2)) == Some(acc as nat),
        decreases len - i,
    {
        let c = s.as_str().get_char(i);
        proof {
            assert(t[i - 2] == s@[i as int]);
        }
        let d = match hex_char_val_exec(c) {
            Some(d) => d,
            None => {
                proof {
                    lemma_run_step(t, i - 2);
                    lemma_run_none(t, i - 1);
                }
                return None;
            },
        };
        if acc > 0x0fff_ffff_ffff_ffff {
            proof {
                if hex_digits_val(t) is Some {
                    lemma_run_grow(t, i - 2, acc as nat);
                }
            }
            return None;
        }
        acc = acc * 16 + d as u64;
        proof {
            lemma_run_step(t, i - 2);
        }
        i += 1;
    }
    proof {
        assert(t.take(len - 2) =~= t);
    }
    Some(acc)
}

/// Decode a wire value at a target kind: the typed value when the shape
/// matches, a decode failure otherwise.
pub fn decode(kind: TargetKind, value: Value) -> (r: Result<TypedValue, Error>)
    ensures
        r matches Ok(t) ==> decoded(kind, value@) == Some(t@),
        r matches Err(e) ==> decoded(kind, value@) is None && e matches Error::Decoder(_),
{
    match kind {
        TargetKind::Quantity => match value {
            Value::Str(s) => match parse_quantity(&s) {
                Some(n) => Ok(TypedValue::Quantity(n)),
                None => Err(Error::Decoder("expected a 0x-prefixed quantity".to_owned())),
            },
            _ => Err(Error::Decoder("expected a quantity string".to_owned())),
        },
        TargetKind::Boolean => match value {
            Value::Bool(b) => Ok(TypedValue::Boolean(b)),
            _ => Err(Error::Decoder("expected a boolean".to_owned())),
        },
        TargetKind::Text => match value {
            Value::Str(s) => Ok(TypedValue::Text(s)),
            _ => Err(Error::Decoder("expected a string".to_owned())),
        },
        TargetKind::Raw => Ok(TypedValue::Raw(value)),
    }
}

} // verus!
