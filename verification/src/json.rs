//! The wire text codec: rendering calls to JSON-RPC 2.0 text and parsing
//! response and notification bytes back into the wire model.
//!
//! The wire format is JSON, with one deliberate bound matching what this
//! pipeline ever carries: numbers are integers within the signed 64-bit
//! range (a fraction or exponent is an unexpected shape). Strings carry
//! full Unicode text, inbound through UTF-8 bytes, short escapes and
//! `\uXXXX` escapes with surrogate pairs, outbound through every
//! character rendered as itself or escaped.

use vstd::prelude::*;
use crate::codec::hex_digit_char;
use crate::rpc::{CallModel, MethodCallModel, Value, ValueModel};
use crate::strutil::push_char;

verus! {

// ---------------------------------------------------------------------------
// Rendering: the canonical text of a wire value.
// ---------------------------------------------------------------------------

/// The decimal digits of `n`, no leading zeros.
pub open spec fn dec_digits(n: nat) -> Seq<char>
    decreases n,
{
    if n < 10 {
        seq![hex_digit_char(n as int)]
    } else {
        dec_digits(n / 10).push(hex_digit_char((n % 10) as int))
    }
}

/// The decimal text of an integer: a minus sign for negatives, then digits.
pub open spec fn dec_of(n: int) -> Seq<char> {
    if n < 0 {
        seq!['-'] + dec_digits((-n) as nat)
    } else {
        dec_digits(n as nat)
    }
}

/// How one character is written inside a JSON string: quote and backslash
/// get a backslash escape, control characters a `\u00XX` escape, everything
/// else stands as itself.
pub open spec fn esc_char(c: char) -> Seq<char> {
    if c == '"' {
        "\\\""@
    } else if c == '\\' {
        "\\\\"@
    } else if (c as u32) < 32 {
        "\\u00"@ + seq![
            hex_digit_char(((c as u32) / 16) as int),
            hex_digit_char(((c as u32) % 16) as int),
        ]
    } else {
        seq![c]
    }
}

/// A run of characters written inside a JSON string.
pub open spec fn esc_of(s: Seq<char>) -> Seq<char>
    decreases s.len(),
{
    if s.len() == 0 {
        Seq::empty()
    } else {
        esc_of(s.drop_last()) + esc_char(s.last())
    }
}

/// A JSON string: quoted, escaped text.
pub open spec fn quote_of(s: Seq<char>) -> Seq<char> {
    "\""@ + esc_of(s) + "\""@
}

/// The JSON text of a wire value.
pub open spec fn json_of(m: ValueModel) -> Seq<char>
    decreases m,
    via json_of_decreases
{
    match m {
        ValueModel::Null => "null"@,
        ValueModel::Bool(b) => if b {
            "true"@
        } else {
            "false"@
        },
        ValueModel::Num(n) => dec_of(n),
        ValueModel::Str(s) => quote_of(s),
        ValueModel::Array(items) => "["@ + json_list_of(items) + "]"@,
        ValueModel::Object(entries) => "{"@ + json_entries_of(entries) + "}"@,
    }
}

/// The comma-separated JSON texts of a run of wire values.
pub open spec fn json_list_of(items: Seq<ValueModel>) -> Seq<char>
    decreases items,
    via json_list_of_decreases
{
    if items.len() == 0 {
        Seq::empty()
    } else if items.len() == 1 {
        json_of(items[0])
    } else {
        json_list_of(items.drop_last()) + ","@ + json_of(items.last())
    }
}

/// The comma-separated JSON texts of a run of object entries.
pub open spec fn json_entries_of(entries: Seq<(Seq<char>, ValueModel)>) -> Seq<char>
    decreases entries,
    via json_entries_of_decreases
{
    if entries.len() == 0 {
        Seq::empty()
    } else if entries.len() == 1 {
        quote_of(entries[0].0) + ":"@ + json_of(entries[0].1)
    } else {
        json_entries_of(entries.drop_last()) + ","@ + quote_of(entries.last().0) + ":"@ + json_of(
            entries.last().1,
        )
    }
}

#[via_fn]
proof fn json_of_decreases(m: ValueModel) {
    broadcast use vstd::seq::group_seq_axioms;

}

#[via_fn]
proof fn json_list_of_decreases(items: Seq<ValueModel>) {
    broadcast use vstd::seq::group_seq_axioms;

    if items.len() > 0 {
        vstd::seq::axiom_seq_index_decreases(items, 0);
        if items.len() > 1 {
            vstd::seq::axiom_seq_len_decreases(items, items.drop_last());
            vstd::seq::axiom_seq_index_decreases(items, items.len() - 1);
        }
    }
}

#[via_fn]
proof fn json_entries_of_decreases(entries: Seq<(Seq<char>, ValueModel)>) {
    broadcast use vstd::seq::group_seq_axioms;

    if entries.len() > 0 {
        vstd::seq::axiom_seq_index_decreases(entries, 0);
        if entries.len() > 1 {
            vstd::seq::axiom_seq_len_decreases(entries, entries.drop_last());
            vstd::seq::axiom_seq_index_decreases(entries, entries.len() - 1);
        }
    }
}

/// The JSON-RPC text of one method call: fields in the order jsonrpc
/// (omitted when untagged), id, method, params.
pub open spec fn method_call_text(c: MethodCallModel) -> Seq<char> {
    "{"@ + (if c.jsonrpc is Some {
        "\"jsonrpc\":\"2.0\","@
    } else {
        Seq::empty()
    }) + "\"id\":"@ + dec_of(c.id as int) + ",\"method\":"@ + quote_of(c.method)
        + ",\"params\":["@ + json_list_of(c.params) + "]}"@
}

/// The comma-separated texts of the calls of a batch.
pub open spec fn batch_text(calls: Seq<MethodCallModel>) -> Seq<char>
    decreases calls.len(),
{
    if calls.len() == 0 {
        Seq::empty()
    } else if calls.len() == 1 {
        method_call_text(calls[0])
    } else {
        batch_text(calls.drop_last()) + ","@ + method_call_text(calls.last())
    }
}

/// The JSON-RPC text of an outbound request: one call object, or a batch
/// array of them.
pub open spec fn call_text(c: CallModel) -> Seq<char> {
    match c {
        CallModel::MethodCall(mc) => method_call_text(mc),
        CallModel::Batch(calls) => "["@ + batch_text(calls) + "]"@,
    }
}

proof fn lemma_json_list_step(items: Seq<ValueModel>, i: int)
    requires
        0 <= i < items.len(),
    ensures
        json_list_of(items.take(i + 1)) == if i == 0 {
            json_of(items[0])
        } else {
            json_list_of(items.take(i)) + ","@ + json_of(items[i])
        },
{
    let t = items.take(i + 1);
    assert(t.drop_last() =~= items.take(i));
    assert(t.last() == items[i]);
    if i == 0 {
        assert(t[0] == items[0]);
    }
}

proof fn lemma_json_entries_step(entries: Seq<(Seq<char>, ValueModel)>, i: int)
    requires
        0 <= i < entries.len(),
    ensures
        json_entries_of(entries.take(i + 1)) == if i == 0 {
            quote_of(entries[0].0) + ":"@ + json_of(entries[0].1)
        } else {
            json_entries_of(entries.take(i)) + ","@ + quote_of(entries[i].0) + ":"@ + json_of(
                entries[i].1,
            )
        },
{
    let t = entries.take(i + 1);
    assert(t.drop_last() =~= entries.take(i));
    assert(t.last() == entries[i]);
    if i == 0 {
        assert(t[0] == entries[0]);
    }
}

proof fn lemma_esc_step(s: Seq<char>, i: int)
    requires
        0 <= i < s.len(),
    ensures
        esc_of(s.take(i + 1)) == esc_of(s.take(i)) + esc_char(s[i]),
{
    let t = s.take(i + 1);
    assert(t.drop_last() =~= s.take(i));
    assert(t.last() == s[i]);
}

fn write_dec_digits(n: u64, out: &mut String)
    ensures
        final(out)@ == old(out)@ + dec_digits(n as nat),
    decreases n,
{
    if n < 10 {
        push_char(out, crate::codec::hex_digit_char_exec(n as u8));
        proof {
            assert(final(out)@ =~= old(out)@ + dec_digits(n as nat));
        }
    } else {
        write_dec_digits(n / 10, out);
        push_char(out, crate::codec::hex_digit_char_exec((n % 10) as u8));
        proof {
            assert(final(out)@ =~= old(out)@ + dec_digits(n as nat));
        }
    }
}

fn write_dec(n: i64, out: &mut String)
    ensures
        final(out)@ == old(out)@ + dec_of(n as int),
{
    if n < 0 {
        out.append("-");
        let mag: u64 = (-(n as i128)) as u64;
        write_dec_digits(mag, out);
        proof {
            reveal_strlit("-");
            assert(("-")@ =~= seq!['-']);
            assert(final(out)@ =~= old(out)@ + dec_of(n as int));
        }
    } else {
        write_dec_digits(n as u64, out);
    }
}

#[verifier::loop_isolation(false)]
fn write_quoted(s: &str, out: &mut String)
    ensures
        final(out)@ == old(out)@ + quote_of(s@),
{
    out.append("\"");
    let len = s.unicode_len();
    let mut i: usize = 0;
    proof {
        assert(s@.take(0) =~= Seq::<char>::empty());
    }
    while i < len
        invariant
            i <= len,
            len == s@.len(),
            out@ == old(out)@ + "\""@ + esc_of(s@.take(i as int)),
        decreases len - i,
    {
        let c = s.get_char(i);
        let u = c as u32;
        if c == '"' {
            out.append("\\\"");
        } else if c == '\\' {
            out.append("\\\\");
        } else if u < 32 {
            out.append("\\u00");
            push_char(out, crate::codec::hex_digit_char_exec((u / 16) as u8));
            push_char(out, crate::codec::hex_digit_char_exec((u % 16) as u8));
        } else {
            push_char(out, c);
        }
        proof {
            lemma_esc_step(s@, i as int);
            assert(out@ =~= old(out)@ + "\""@ + esc_of(s@.take(i + 1)));
        }
        i += 1;
    }
    out.append("\"");
    proof {
        assert(s@.take(len as int) =~= s@);
        assert(final(out)@ =~= old(out)@ + quote_of(s@));
    }
}

#[verifier::rlimit(80)]
#[verifier::loop_isolation(false)]
fn write_value(v: &Value, out: &mut String)
    ensures
        final(out)@ == old(out)@ + json_of(v@),
    decreases *v,
{
    broadcast use vstd::std_specs::vec::group_vec_axioms;
    broadcast use vstd::seq::group_seq_axioms;

    match v {
        Value::Null => {
            out.append("null");
        },
        Value::Bool(b) => {
            if *b {
                out.append("true");
            } else {
                out.append("false");
            }
        },
        Value::Num(n) => {
            write_dec(*n, out);
        },
        Value::Str(s) => {
            write_quoted(s.as_str(), out);
        },
        Value::Array(items) => {
            let ghost ms = Value::models_of(items@);
            proof {
                crate::rpc::lemma_models_of(items@);
            }
            out.append("[");
            let mut i: usize = 0;
            proof {
                assert(json_list_of(ms.take(0)) =~= Seq::<char>::empty());
            }
            while i < items.len()
                invariant
                    i <= items.len(),
                    ms == Value::models_of(items@),
                    ms.len() == items@.len(),
                    forall|k: int| 0 <= k < items@.len() ==> ms[k] == (#[trigger] items@[k]).model(),
                    out@ == old(out)@ + "["@ + json_list_of(ms.take(i as int)),
                decreases items@.len() - i,
            {
                if i > 0 {
                    out.append(",");
                }
                proof {
                    assert(*v == Value::Array(*items));
                    assert(decreases_to!(*v => *items));
                }
                write_value(&items[i], out);
                proof {
                    lemma_json_list_step(ms, i as int);
                    assert(out@ =~= old(out)@ + "["@ + json_list_of(ms.take(i + 1)));
                }
                i += 1;
            }
            out.append("]");
            proof {
                assert(ms.take(ms.len() as int) =~= ms);
                assert(final(out)@ =~= old(out)@ + json_of(v@));
            }
        },
        Value::Object(entries) => {
            let ghost ms = Value::entry_models_of(entries@);
            proof {
                crate::rpc::lemma_entry_models_of(entries@);
            }
            out.append("{");
            let mut i: usize = 0;
            proof {
                assert(json_entries_of(ms.take(0)) =~= Seq::<char>::empty());
            }
            while i < entries.len()
                invariant
                    i <= entries.len(),
                    ms == Value::entry_models_of(entries@),
                    ms.len() == entries@.len(),
                    forall|k: int|
                        0 <= k < entries@.len() ==> ms[k] == ((#[trigger] entries@[k]).0@,
                        entries@[k].1.model()),
                    out@ == old(out)@ + "{"@ + json_entries_of(ms.take(i as int)),
                decreases entries@.len() - i,
            {
                if i > 0 {
                    out.append(",");
                }
                write_quoted(entries[i].0.as_str(), out);
                out.append(":");
                proof {
                    assert(*v == Value::Object(*entries));
                    assert(decreases_to!(*v => *entries));
                }
                write_value(&entries[i].1, out);
                proof {
                    lemma_json_entries_step(ms, i as int);
                    assert(out@ =~= old(out)@ + "{"@ + json_entries_of(ms.take(i + 1)));
                }
                i += 1;
            }
            out.append("}");
            proof {
                assert(ms.take(ms.len() as int) =~= ms);
                assert(final(out)@ =~= old(out)@ + json_of(v@));
            }
        },
    }
}

#[verifier::loop_isolation(false)]
fn write_method_call(c: &crate::rpc::MethodCall, out: &mut String)
    ensures
        final(out)@ == old(out)@ + method_call_text(c@),
{
    out.append("{");
    if c.jsonrpc.is_some() {
        out.append("\"jsonrpc\":\"2.0\",");
    }
    out.append("\"id\":");
    let id = match c.id {
        crate::rpc::Id::Num(n) => n,
    };
    proof {
        assert(id as int >= 0);
    }
    write_dec_u64(id, out);
    out.append(",\"method\":");
    write_quoted(c.method.as_str(), out);
    out.append(",\"params\":[");
    let items = match &c.params {
        crate::rpc::Params::Array(items) => items,
    };
    let ghost ms = Value::models_of(items@);
    proof {
        crate::rpc::lemma_models_of(items@);
    }
    let ghost mark = out@;
    let mut i: usize = 0;
    proof {
        assert(json_list_of(ms.take(0)) =~= Seq::<char>::empty());
    }
    while i < items.len()
        invariant
            i <= items.len(),
            ms == Value::models_of(items@),
            ms.len() == items@.len(),
            forall|k: int| 0 <= k < items@.len() ==> ms[k] == (#[trigger] items@[k]).model(),
            out@ == mark + json_list_of(ms.take(i as int)),
        decreases items@.len() - i,
    {
        if i > 0 {
            out.append(",");
        }
        write_value(&items[i], out);
        proof {
            lemma_json_list_step(ms, i as int);
            assert(out@ =~= mark + json_list_of(ms.take(i + 1)));
        }
        i += 1;
    }
    out.append("]}");
    proof {
        assert(ms.take(ms.len() as int) =~= ms);
        assert(final(out)@ =~= old(out)@ + method_call_text(c@));
    }
}

fn write_dec_u64(n: u64, out: &mut String)
    ensures
        final(out)@ == old(out)@ + dec_of(n as int),
{
    write_dec_digits(n, out);
}

/// Render an outbound request as JSON-RPC 2.0 text.
#[verifier::loop_isolation(false)]
pub fn render_call(request: &crate::rpc::Call) -> (r: String)
    ensures
        r@ == call_text(request@),
{
    broadcast use vstd::std_specs::vec::group_vec_axioms;

    let mut out = String::new();
    match request {
        crate::rpc::Call::MethodCall(c) => {
            write_method_call(c, &mut out);
        },
        crate::rpc::Call::Batch(calls) => {
            out.append("[");
            let mut i: usize = 0;
            proof {
                assert(batch_text(calls.deep_view().take(0)) =~= Seq::<char>::empty());
            }
            while i < calls.len()
                invariant
                    i <= calls.len(),
                    out@ == "["@ + batch_text(calls.deep_view().take(i as int)),
                    calls.deep_view().len() == calls@.len(),
                decreases calls@.len() - i,
            {
                if i > 0 {
                    out.append(",");
                }
                write_method_call(&calls[i], &mut out);
                proof {
                    lemma_batch_step(calls.deep_view(), i as int);
                    assert(out@ =~= "["@ + batch_text(calls.deep_view().take(i + 1)));
                }
                i += 1;
            }
            out.append("]");
            proof {
                assert(calls.deep_view().take(calls.deep_view().len() as int) =~= calls.deep_view());
                assert(out@ =~= call_text(request@));
            }
        },
    }
    out
}

// ---------------------------------------------------------------------------
// Parsing: which byte runs are well-formed wire text, and what they denote.
// ---------------------------------------------------------------------------

/// JSON whitespace.
pub open spec fn is_ws_byte(b: u8) -> bool {
    b == 32 || b == 9 || b == 10 || b == 13
}

/// An ASCII decimal digit.
pub open spec fn is_digit(b: u8) -> bool {
    48 <= b <= 57
}

/// The first index at or after `i` holding no whitespace.
pub open spec fn sp_ws(s: Seq<u8>, i: int) -> int
    decreases s.len() - i,
{
    if 0 <= i < s.len() && is_ws_byte(s[i]) {
        sp_ws(s, i + 1)
    } else {
        i
    }
}

/// The first index at or after `i` holding no digit.
pub open spec fn digits_end(s: Seq<u8>, i: int) -> int
    decreases s.len() - i,
{
    if 0 <= i < s.len() && is_digit(s[i]) {
        digits_end(s, i + 1)
    } else {
        i
    }
}

/// The value of a run of decimal digit bytes, most significant first.
pub open spec fn dec_val(t: Seq<u8>) -> int
    decreases t.len(),
{
    if t.len() == 0 {
        0
    } else {
        10 * dec_val(t.drop_last()) + (t.last() - 48)
    }
}

/// A progress clamp: `j` where a production placed its continuation, held
/// to the range `(i, len]` so that every parsing step visibly advances.
/// On well-formed indices this is the identity.
pub open spec fn next_at(s: Seq<u8>, i: int, j: int) -> int {
    if i + 1 > s.len() {
        s.len() as int
    } else if i < j <= s.len() {
        j
    } else {
        i + 1
    }
}

/// A number: optional minus sign, digits without a redundant leading zero,
/// value within the signed 64-bit range. Anything else — including a
/// fraction or exponent, which this pipeline never carries — is unexpected.
pub open spec fn sp_number(s: Seq<u8>, i: int) -> Option<(ValueModel, int)> {
    let neg = 0 <= i < s.len() && s[i] == 45;
    let d0 = if neg {
        i + 1
    } else {
        i
    };
    let end = digits_end(s, d0);
    if end == d0 {
        None
    } else if s[d0] == 48 && end > d0 + 1 {
        None
    } else {
        let mag = dec_val(s.subrange(d0, end));
        if neg {
            if mag <= 0x8000_0000_0000_0000 {
                Some((ValueModel::Num(-mag), end))
            } else {
                None
            }
        } else {
            if mag <= 0x7fff_ffff_ffff_ffff {
                Some((ValueModel::Num(mag), end))
            } else {
                None
            }
        }
    }
}

/// The character a short escape stands for. `\u` escapes are handled
/// separately.
pub open spec fn esc_byte_char(b: u8) -> Option<char> {
    if b == 34 {
        Some('"')
    } else if b == 92 {
        Some('\\')
    } else if b == 47 {
        Some('/')
    } else if b == 98 {
        Some(8u8 as char)
    } else if b == 102 {
        Some(12u8 as char)
    } else if b == 110 {
        Some('\n')
    } else if b == 114 {
        Some('\r')
    } else if b == 116 {
        Some('\t')
    } else {
        None
    }
}

/// The value of four hexadecimal digit bytes starting at `i`; `None`
/// when they run past the end or one is no hexadecimal digit.
pub open spec fn sp_hex4(s: Seq<u8>, i: int) -> Option<u32> {
    if 0 <= i && i + 4 <= s.len() {
        match (
            crate::codec::hex_char_val(s[i] as char),
            crate::codec::hex_char_val(s[i + 1] as char),
            crate::codec::hex_char_val(s[i + 2] as char),
            crate::codec::hex_char_val(s[i + 3] as char),
        ) {
            (Some(a), Some(b), Some(c), Some(d)) => Some(
                (a * 4096 + b * 256 + c * 16 + d) as u32,
            ),
            _ => None,
        }
    } else {
        None
    }
}

/// The character a `\uXXXX` escape at `i` (`i` at the backslash) denotes,
/// and the index after it: a plain escape for a code point outside the
/// surrogate range, a high surrogate followed by a second `\uXXXX` low
/// surrogate for a supplementary character; a lone or ill-ordered
/// surrogate is unexpected.
pub open spec fn sp_u_escape(s: Seq<u8>, i: int) -> Option<(char, int)> {
    match sp_hex4(s, i + 2) {
        Some(u1) => if u1 < 0xD800 || u1 >= 0xE000 {
            Some((u1 as char, i + 6))
        } else if u1 < 0xDC00 {
            if i + 8 <= s.len() && s[i + 6] == 92 && s[i + 7] == 117 {
                match sp_hex4(s, i + 8) {
                    Some(u2) => if 0xDC00 <= u2 < 0xE000 {
                        Some(
                            (
                                ((0x10000 + (u1 - 0xD800) * 0x400 + (u2 - 0xDC00)) as u32) as char,
                                i + 12,
                            ),
                        )
                    } else {
                        None
                    },
                    None => None,
                }
            } else {
                None
            }
        } else {
            None
        },
        None => None,
    }
}

/// The characters of a string body from `i` up to its closing quote, and
/// the index after that quote: short and `\uXXXX` escapes, plain ASCII,
/// and multi-byte UTF-8 sequences. An unescaped control byte, a lone
/// surrogate, or an ill-formed UTF-8 sequence is unexpected.
pub open spec fn sp_str_chars(s: Seq<u8>, i: int) -> Option<(Seq<char>, int)>
    decreases s.len() - i,
{
    if !(0 <= i < s.len()) {
        None
    } else if s[i] == 34 {
        Some((Seq::empty(), i + 1))
    } else if s[i] == 92 {
        if i + 1 < s.len() && s[i + 1] == 117 {
            match sp_u_escape(s, i) {
                Some((c, n)) => match sp_str_chars(s, next_at(s, i, n)) {
                    Some((cs, j)) => Some((seq![c] + cs, j)),
                    None => None,
                },
                None => None,
            }
        } else if i + 1 < s.len() {
            match esc_byte_char(s[i + 1]) {
                Some(c) => match sp_str_chars(s, i + 2) {
                    Some((cs, j)) => Some((seq![c] + cs, j)),
                    None => None,
                },
                None => None,
            }
        } else {
            None
        }
    } else if s[i] < 32 {
        None
    } else if s[i] < 128 {
        match sp_str_chars(s, i + 1) {
            Some((cs, j)) => Some((seq![s[i] as char] + cs, j)),
            None => None,
        }
    } else {
        if vstd::utf8::valid_first_scalar(s.skip(i)) {
            let w = vstd::utf8::length_of_first_scalar(s.skip(i));
            match sp_str_chars(s, next_at(s, i, i + w)) {
                Some((cs, j)) => Some(
                    (seq![vstd::utf8::decode_first_scalar(s.skip(i)) as char] + cs, j),
                ),
                None => None,
            }
        } else {
            None
        }
    }
}

/// A JSON string starting at `i`.
pub open spec fn sp_string(s: Seq<u8>, i: int) -> Option<(Seq<char>, int)> {
    if 0 <= i < s.len() && s[i] == 34 {
        sp_str_chars(s, i + 1)
    } else {
        None
    }
}

/// A JSON value starting at `i` (no leading whitespace), and the index
/// just after it.
pub open spec fn sp_value(s: Seq<u8>, i: int) -> Option<(ValueModel, int)>
    decreases s.len() - i, 0int,
{
    if !(0 <= i < s.len()) {
        None
    } else {
        let b = s[i];
        if b == 110 {
            if s.len() - i >= 4 && s[i + 1] == 117 && s[i + 2] == 108 && s[i + 3] == 108 {
                Some((ValueModel::Null, i + 4))
            } else {
                None
            }
        } else if b == 116 {
            if s.len() - i >= 4 && s[i + 1] == 114 && s[i + 2] == 117 && s[i + 3] == 101 {
                Some((ValueModel::Bool(true), i + 4))
            } else {
                None
            }
        } else if b == 102 {
            if i + 5 <= s.len() && s[i + 1] == 97 && s[i + 2] == 108 && s[i + 3] == 115 && s[i + 4]
                == 101 {
                Some((ValueModel::Bool(false), i + 5))
            } else {
                None
            }
        } else if b == 34 {
            match sp_string(s, i) {
                Some((cs, j)) => Some((ValueModel::Str(cs), j)),
                None => None,
            }
        } else if b == 45 || is_digit(b) {
            sp_number(s, i)
        } else if b == 91 {
            let k = sp_ws(s, i + 1);
            if k < s.len() && s[k] == 93 {
                Some((ValueModel::Array(Seq::empty()), k + 1))
            } else {
                match sp_elements(s, next_at(s, i, k)) {
                    Some((ms, j)) => Some((ValueModel::Array(ms), j)),
                    None => None,
                }
            }
        } else if b == 123 {
            let k = sp_ws(s, i + 1);
            if k < s.len() && s[k] == 125 {
                Some((ValueModel::Object(Seq::empty()), k + 1))
            } else {
                match sp_members(s, next_at(s, i, k)) {
                    Some((es, j)) => Some((ValueModel::Object(es), j)),
                    None => None,
                }
            }
        } else {
            None
        }
    }
}

/// The elements of a non-empty array, from the first element up to and
/// past the closing bracket.
pub open spec fn sp_elements(s: Seq<u8>, i: int) -> Option<(Seq<ValueModel>, int)>
    decreases s.len() - i, 1int,
{
    match sp_value(s, i) {
        None => None,
        Some((m, j0)) => {
            let k = sp_ws(s, next_at(s, i, j0));
            if k < s.len() && s[k] == 44 {
                match sp_elements(s, next_at(s, i, sp_ws(s, k + 1))) {
                    Some((ms, j)) => Some((seq![m] + ms, j)),
                    None => None,
                }
            } else if k < s.len() && s[k] == 93 {
                Some((seq![m], k + 1))
            } else {
                None
            }
        },
    }
}

/// The entries of a non-empty object, from the first key up to and past
/// the closing brace.
pub open spec fn sp_members(s: Seq<u8>, i: int) -> Option<(Seq<(Seq<char>, ValueModel)>, int)>
    decreases s.len() - i, 1int,
{
    if !(0 <= i < s.len()) {
        None
    } else {
        match sp_string(s, i) {
            None => None,
            Some((key, j0)) => {
                let k = sp_ws(s, next_at(s, i, j0));
                if k < s.len() && s[k] == 58 {
                    let v0 = next_at(s, i, sp_ws(s, k + 1));
                    match sp_value(s, v0) {
                        None => None,
                        Some((m, j1)) => {
                            let k2 = sp_ws(s, next_at(s, i, j1));
                            if k2 < s.len() && s[k2] == 44 {
                                match sp_members(s, next_at(s, i, sp_ws(s, k2 + 1))) {
                                    Some((es, j)) => Some((seq![(key, m)] + es, j)),
                                    None => None,
                                }
                            } else if k2 < s.len() && s[k2] == 125 {
                                Some((seq![(key, m)], k2 + 1))
                            } else {
                                None
                            }
                        },
                    }
                } else {
                    None
                }
            },
        }
    }
}

/// The wire value a whole byte run denotes: optional whitespace, one
/// value, optional whitespace, end of input; `None` when the bytes are
/// not well-formed wire text.
pub open spec fn sp_json(s: Seq<u8>) -> Option<ValueModel> {
    match sp_value(s, sp_ws(s, 0)) {
        Some((m, j)) => if sp_ws(s, j) == s.len() {
            Some(m)
        } else {
            None
        },
        None => None,
    }
}

fn is_ws_byte_exec(b: u8) -> (r: bool)
    ensures
        r == is_ws_byte(b),
{
    b == 32 || b == 9 || b == 10 || b == 13
}

fn is_digit_exec(b: u8) -> (r: bool)
    ensures
        r == is_digit(b),
{
    48 <= b && b <= 57
}

fn skip_ws(s: &[u8], i: usize) -> (r: usize)
    requires
        i <= s@.len(),
    ensures
        r as int == sp_ws(s@, i as int),
        i <= r <= s@.len(),
{
    let mut j = i;
    while j < s.len() && is_ws_byte_exec(s[j])
        invariant
            i <= j <= s@.len(),
            sp_ws(s@, i as int) == sp_ws(s@, j as int),
        decreases s@.len() - j,
    {
        j += 1;
    }
    j
}

fn next_at_x(s: &[u8], i: usize, j: usize) -> (r: usize)
    ensures
        r as int == next_at(s@, i as int, j as int),
        r <= s@.len(),
{
    if i >= s.len() {
        s.len()
    } else if j > i && j <= s.len() {
        j
    } else {
        i + 1
    }
}

proof fn lemma_dec_nonneg(t: Seq<u8>)
    requires
        forall|m: int| 0 <= m < t.len() ==> is_digit(#[trigger] t[m]),
    ensures
        dec_val(t) >= 0,
    decreases t.len(),
{
    if t.len() > 0 {
        lemma_dec_nonneg(t.drop_last());
    }
}

proof fn lemma_dec_grow(t: Seq<u8>, j: int)
    requires
        0 <= j < t.len(),
        forall|m: int| 0 <= m < t.len() ==> is_digit(#[trigger] t[m]),
    ensures
        dec_val(t) >= 10 * dec_val(t.take(j)),
        dec_val(t.take(j)) >= 0,
    decreases t.len(),
{
    lemma_dec_nonneg(t.take(j));
    lemma_dec_nonneg(t.drop_last());
    if j == t.len() - 1 {
        assert(t.take(j) =~= t.drop_last());
    } else {
        assert(t.drop_last().take(j) =~= t.take(j));
        lemma_dec_grow(t.drop_last(), j);
    }
}

#[verifier::loop_isolation(false)]
fn parse_number(s: &[u8], i: usize) -> (r: Option<(Value, usize)>)
    requires
        i < s@.len(),
    ensures
        r matches Some(p) ==> sp_number(s@, i as int) == Some((p.0@, p.1 as int)) && i < p.1
            <= s@.len(),
        r is None ==> sp_number(s@, i as int) is None,
{
    let neg = s[i] == 45;
    let d0 = if neg {
        i + 1
    } else {
        i
    };
    let mut end = d0;
    while end < s.len() && is_digit_exec(s[end])
        invariant
            d0 <= end <= s@.len(),
            digits_end(s@, d0 as int) == digits_end(s@, end as int),
            forall|m: int| d0 <= m < end ==> is_digit(#[trigger] s@[m]),
        decreases s@.len() - end,
    {
        end += 1;
    }
    if end == d0 {
        return None;
    }
    if s[d0] == 48 && end > d0 + 1 {
        return None;
    }
    let ghost t = s@.subrange(d0 as int, end as int);
    proof {
        assert(t.take(0) =~= Seq::<u8>::empty());
    }
    let mut acc: u64 = 0;
    let mut p = d0;
    while p < end
        invariant
            d0 <= p <= end <= s@.len(),
            t == s@.subrange(d0 as int, end as int),
            forall|m: int| d0 <= m < end ==> is_digit(#[trigger] s@[m]),
            dec_val(t.take(p - d0)) == acc,
        decreases end - p,
    {
        let d = s[p] - 48;
        if acc > 1844674407370955160 {
            proof {
                lemma_dec_grow(t, p - d0);
            }
            return None;
        }
        acc = acc * 10 + (d as u64);
        proof {
            let q = p - d0;
            assert(t.take(q + 1).drop_last() =~= t.take(q));
            assert(t.take(q + 1).last() == s@[p as int]);
        }
        p += 1;
    }
    proof {
        assert(t.take(end - d0) =~= t);
    }
    if neg {
        if acc > 0x8000000000000000u64 {
            return None;
        }
        let n: i64 = (-(acc as i128)) as i64;
        proof {
            assert(n as int == -(acc as int));
        }
        Some((Value::Num(n), end))
    } else {
        if acc > 0x7fffffffffffffffu64 {
            return None;
        }
        Some((Value::Num(acc as i64), end))
    }
}

fn esc_byte_char_exec(b: u8) -> (r: Option<char>)
    ensures
        r == esc_byte_char(b),
{
    if b == 34 {
        Some('"')
    } else if b == 92 {
        Some('\\')
    } else if b == 47 {
        Some('/')
    } else if b == 98 {
        Some(8u8 as char)
    } else if b == 102 {
        Some(12u8 as char)
    } else if b == 110 {
        Some('\n')
    } else if b == 114 {
        Some('\r')
    } else if b == 116 {
        Some('\t')
    } else {
        None
    }
}

fn hex_byte_val_exec(b: u8) -> (r: Option<u32>)
    ensures
        r matches Some(d) ==> crate::codec::hex_char_val(b as char) == Some(d as int) && d < 16,
        r is None ==> crate::codec::hex_char_val(b as char) is None,
{
    if 48 <= b && b <= 57 {
        Some((b - 48) as u32)
    } else if 97 <= b && b <= 102 {
        Some((b - 87) as u32)
    } else if 65 <= b && b <= 70 {
        Some((b - 55) as u32)
    } else {
        None
    }
}

fn parse_hex4(s: &[u8], i: usize) -> (r: Option<u32>)
    requires
        i <= s@.len(),
    ensures
        r == sp_hex4(s@, i as int),
        r matches Some(u) ==> u < 0x10000,
{
    if s.len() - i < 4 {
        return None;
    }
    let a = match hex_byte_val_exec(s[i]) {
        Some(d) => d,
        None => {
            return None;
        },
    };
    let b = match hex_byte_val_exec(s[i + 1]) {
        Some(d) => d,
        None => {
            return None;
        },
    };
    let c = match hex_byte_val_exec(s[i + 2]) {
        Some(d) => d,
        None => {
            return None;
        },
    };
    let d = match hex_byte_val_exec(s[i + 3]) {
        Some(d) => d,
        None => {
            return None;
        },
    };
    Some(a * 4096 + b * 256 + c * 16 + d)
}

fn parse_u_escape(s: &[u8], i: usize) -> (r: Option<(char, usize)>)
    requires
        i < s@.len(),
    ensures
        r matches Some(p) ==> sp_u_escape(s@, i as int) == Some((p.0, p.1 as int)) && i < p.1
            <= s@.len(),
        r is None ==> sp_u_escape(s@, i as int) is None,
{
    if s.len() - i < 6 {
        return None;
    }
    let u1 = match parse_hex4(s, i + 2) {
        Some(u) => u,
        None => {
            return None;
        },
    };
    if u1 < 0xD800 || u1 >= 0xE000 {
        match crate::strutil::char_from_u32(u1) {
            Some(c) => {
                proof {
                    vstd::utf8::char_u32_cast(c, u1);
                }
                Some((c, i + 6))
            },
            None => None,
        }
    } else if u1 < 0xDC00 {
        if s.len() - i < 8 {
            return None;
        }
        if !(s[i + 6] == 92 && s[i + 7] == 117) {
            return None;
        }
        let u2 = match parse_hex4(s, i + 8) {
            Some(u) => u,
            None => {
                return None;
            },
        };
        if !(0xDC00 <= u2 && u2 < 0xE000) {
            return None;
        }
        let cp: u32 = 0x10000 + (u1 - 0xD800) * 0x400 + (u2 - 0xDC00);
        match crate::strutil::char_from_u32(cp) {
            Some(c) => {
                proof {
                    vstd::utf8::char_u32_cast(c, cp);
                }
                Some((c, i + 12))
            },
            None => None,
        }
    } else {
        None
    }
}

fn parse_utf8_scalar(s: &[u8], i: usize) -> (r: Option<(char, usize)>)
    requires
        i < s@.len(),
        s@[i as int] >= 128,
    ensures
        r matches Some(p) ==> ({
            &&& vstd::utf8::valid_first_scalar(s@.skip(i as int))
            &&& p.0 == (vstd::utf8::decode_first_scalar(s@.skip(i as int)) as char)
            &&& p.1 as int == i + vstd::utf8::length_of_first_scalar(s@.skip(i as int))
            &&& i < p.1 <= s@.len()
        }),
        r is None ==> !vstd::utf8::valid_first_scalar(s@.skip(i as int)),
{
    let ghost rest = s@.skip(i as int);
    proof {
        assert(rest.len() == s@.len() - i);
        assert(rest[0] == s@[i as int]);
    }
    let b1 = s[i];
    if b1 < 0xC0 {
        // A continuation byte, or a byte no UTF-8 sequence starts with.
        return None;
    }
    if b1 <= 0xDF {
        if s.len() - i < 2 {
            return None;
        }
        proof {
            assert(rest[1] == s@[i + 1]);
        }
        let b2 = s[i + 1];
        if !(0x80 <= b2 && b2 <= 0xBF) {
            return None;
        }
        let cp: u32 = (((b1 & 0x1F) as u32) << 6) | ((b2 & 0x3F) as u32);
        proof {
            assert(cp == vstd::utf8::codepoint_width_2(b1, b2));
            assert(cp < 0xD800) by (bit_vector)
                requires
                    cp == (((b1 & 0x1F) as u32) << 6) | ((b2 & 0x3F) as u32),
            ;
        }
        if cp < 0x80 {
            return None;
        }
        match crate::strutil::char_from_u32(cp) {
            Some(c) => {
                proof {
                    vstd::utf8::char_u32_cast(c, cp);
                }
                Some((c, i + 2))
            },
            None => None,
        }
    } else if b1 <= 0xEF {
        if s.len() - i < 3 {
            return None;
        }
        proof {
            assert(rest[1] == s@[i + 1]);
            assert(rest[2] == s@[i + 2]);
        }
        let b2 = s[i + 1];
        let b3 = s[i + 2];
        if !(0x80 <= b2 && b2 <= 0xBF) || !(0x80 <= b3 && b3 <= 0xBF) {
            return None;
        }
        let cp: u32 = (((b1 & 0x0F) as u32) << 12) | (((b2 & 0x3F) as u32) << 6) | ((b3
            & 0x3F) as u32);
        proof {
            assert(cp == vstd::utf8::codepoint_width_3(b1, b2, b3));
            assert(cp < 0x10000) by (bit_vector)
                requires
                    cp == (((b1 & 0x0F) as u32) << 12) | (((b2 & 0x3F) as u32) << 6) | ((b3
                        & 0x3F) as u32),
            ;
        }
        if cp < 0x800 {
            return None;
        }
        if 0xD800 <= cp && cp <= 0xDFFF {
            return None;
        }
        match crate::strutil::char_from_u32(cp) {
            Some(c) => {
                proof {
                    vstd::utf8::char_u32_cast(c, cp);
                }
                Some((c, i + 3))
            },
            None => None,
        }
    } else if b1 <= 0xF7 {
        if s.len() - i < 4 {
            return None;
        }
        proof {
            assert(rest[1] == s@[i + 1]);
            assert(rest[2] == s@[i + 2]);
            assert(rest[3] == s@[i + 3]);
        }
        let b2 = s[i + 1];
        let b3 = s[i + 2];
        let b4 = s[i + 3];
        if !(0x80 <= b2 && b2 <= 0xBF) || !(0x80 <= b3 && b3 <= 0xBF) || !(0x80 <= b4 && b4
            <= 0xBF) {
            return None;
        }
        let cp: u32 = (((b1 & 0x07) as u32) << 18) | (((b2 & 0x3F) as u32) << 12) | (((b3
            & 0x3F) as u32) << 6) | ((b4 & 0x3F) as u32);
        proof {
            assert(cp == vstd::utf8::codepoint_width_4(b1, b2, b3, b4));
        }
        if !(0x10000 <= cp && cp <= 0x10FFFF) {
            return None;
        }
        match crate::strutil::char_from_u32(cp) {
            Some(c) => {
                proof {
                    vstd::utf8::char_u32_cast(c, cp);
                }
                Some((c, i + 4))
            },
            None => None,
        }
    } else {
        None
    }
}

#[verifier::loop_isolation(false)]
fn parse_string_body(s: &[u8], start: usize) -> (r: Option<(String, usize)>)
    requires
        start <= s@.len(),
    ensures
        r matches Some(p) ==> sp_str_chars(s@, start as int) == Some((p.0@, p.1 as int)) && start
            < p.1 <= s@.len(),
        r is None ==> sp_str_chars(s@, start as int) is None,
{
    let mut out = String::new();
    let mut i = start;
    while i < s.len()
        invariant
            start <= i <= s@.len(),
            sp_str_chars(s@, start as int) == match sp_str_chars(s@, i as int) {
                Some((cs, j)) => Some::<(Seq<char>, int)>((out@ + cs, j)),
                None => None::<(Seq<char>, int)>,
            },
        decreases s@.len() - i,
    {
        let b = s[i];
        if b == 34 {
            proof {
                assert(out@ + Seq::<char>::empty() =~= out@);
            }
            return Some((out, i + 1));
        } else if b == 92 {
            if i + 1 >= s.len() {
                return None;
            }
            if s[i + 1] == 117 {
                let (c, n) = match parse_u_escape(s, i) {
                    Some(p) => p,
                    None => {
                        return None;
                    },
                };
                let ghost prev = out@;
                push_char(&mut out, c);
                proof {
                    assert forall|cs: Seq<char>| prev + (seq![c] + cs) == out@ + cs by {
                        assert(prev + (seq![c] + cs) =~= out@ + cs);
                    }
                }
                i = next_at_x(s, i, n);
            } else {
                let c = match esc_byte_char_exec(s[i + 1]) {
                    Some(c) => c,
                    None => {
                        return None;
                    },
                };
                let ghost prev = out@;
                push_char(&mut out, c);
                proof {
                    assert forall|cs: Seq<char>| prev + (seq![c] + cs) == out@ + cs by {
                        assert(prev + (seq![c] + cs) =~= out@ + cs);
                    }
                }
                i += 2;
            }
        } else if b < 32 {
            return None;
        } else if b < 128 {
            let c = b as char;
            let ghost prev = out@;
            push_char(&mut out, c);
            proof {
                assert forall|cs: Seq<char>| prev + (seq![c] + cs) == out@ + cs by {
                    assert(prev + (seq![c] + cs) =~= out@ + cs);
                }
            }
            i += 1;
        } else {
            let (c, n) = match parse_utf8_scalar(s, i) {
                Some(p) => p,
                None => {
                    return None;
                },
            };
            let ghost prev = out@;
            push_char(&mut out, c);
            proof {
                assert forall|cs: Seq<char>| prev + (seq![c] + cs) == out@ + cs by {
                    assert(prev + (seq![c] + cs) =~= out@ + cs);
                }
            }
            i = next_at_x(s, i, n);
        }
    }
    None
}

proof fn lemma_batch_step(calls: Seq<MethodCallModel>, i: int)
    requires
        0 <= i < calls.len(),
    ensures
        batch_text(calls.take(i + 1)) == if i == 0 {
            method_call_text(calls[0])
        } else {
            batch_text(calls.take(i)) + ","@ + method_call_text(calls[i])
        },
{
    let t = calls.take(i + 1);
    assert(t.drop_last() =~= calls.take(i));
    assert(t.last() == calls[i]);
    if i == 0 {
        assert(t[0] == calls[0]);
    }
}

#[verifier::loop_isolation(false)]
fn parse_value(s: &[u8], i: usize) -> (r: Option<(Value, usize)>)
    ensures
        r matches Some(p) ==> sp_value(s@, i as int) == Some((p.0@, p.1 as int)) && i < p.1
            <= s@.len(),
        r is None ==> sp_value(s@, i as int) is None,
    decreases s@.len() - i, 0int,
{
    if i >= s.len() {
        return None;
    }
    let b = s[i];
    if b == 110 {
        if s.len() - i >= 4 && s[i + 1] == 117 && s[i + 2] == 108 && s[i + 3] == 108 {
            Some((Value::Null, i + 4))
        } else {
            None
        }
    } else if b == 116 {
        if s.len() - i >= 4 && s[i + 1] == 114 && s[i + 2] == 117 && s[i + 3] == 101 {
            Some((Value::Bool(true), i + 4))
        } else {
            None
        }
    } else if b == 102 {
        if s.len() - i >= 5 && s[i + 1] == 97 && s[i + 2] == 108 && s[i + 3] == 115 && s[i + 4]
            == 101 {
            Some((Value::Bool(false), i + 5))
        } else {
            None
        }
    } else if b == 34 {
        match parse_string_body(s, i + 1) {
            Some((cs, j)) => Some((Value::Str(cs), j)),
            None => None,
        }
    } else if b == 45 || is_digit_exec(b) {
        parse_number(s, i)
    } else if b == 91 {
        let k = skip_ws(s, i + 1);
        if k < s.len() && s[k] == 93 {
            let items: Vec<Value> = Vec::new();
            proof {
                assert(Value::models_of(items@) =~= Seq::<ValueModel>::empty());
            }
            return Some((Value::Array(items), k + 1));
        }
        let m = next_at_x(s, i, k);
        match parse_elements(s, m) {
            Some((items, j)) => Some((Value::Array(items), j)),
            None => None,
        }
    } else if b == 123 {
        let k = skip_ws(s, i + 1);
        if k < s.len() && s[k] == 125 {
            let entries: Vec<(String, Value)> = Vec::new();
            proof {
                assert(Value::entry_models_of(entries@) =~= Seq::<(Seq<char>, ValueModel)>::empty());
            }
            return Some((Value::Object(entries), k + 1));
        }
        let m = next_at_x(s, i, k);
        match parse_members(s, m) {
            Some((entries, j)) => Some((Value::Object(entries), j)),
            None => None,
        }
    } else {
        None
    }
}

#[verifier::loop_isolation(false)]
fn parse_elements(s: &[u8], i: usize) -> (r: Option<(Vec<Value>, usize)>)
    ensures
        r matches Some(p) ==> sp_elements(s@, i as int) == Some(
            (Value::models_of(p.0@), p.1 as int),
        ) && i < p.1 <= s@.len(),
        r is None ==> sp_elements(s@, i as int) is None,
    decreases s@.len() - i, 1int,
{
    match parse_value(s, i) {
        None => None,
        Some((v, j0)) => {
            let m0 = next_at_x(s, i, j0);
            let k = skip_ws(s, m0);
            if k < s.len() && s[k] == 44 {
                let m1 = next_at_x(s, i, skip_ws(s, k + 1));
                match parse_elements(s, m1) {
                    Some((items, j)) => {
                        let ghost old_items = items@;
                        let mut items = items;
                        items.insert(0, v);
                        proof {
                            crate::rpc::lemma_models_of(items@);
                            crate::rpc::lemma_models_of(old_items);
                            assert forall|q: int| 0 <= q < items@.len() implies Value::models_of(
                                items@,
                            )[q] == (seq![v.model()] + Value::models_of(old_items))[q] by {
                                if q > 0 {
                                    assert(items@[q] == old_items[q - 1]);
                                } else {
                                    assert(items@[0] == v);
                                }
                            }
                            assert(Value::models_of(items@) =~= seq![v.model()]
                                + Value::models_of(old_items));
                        }
                        Some((items, j))
                    },
                    None => None,
                }
            } else if k < s.len() && s[k] == 93 {
                let mut items: Vec<Value> = Vec::new();
                items.push(v);
                proof {
                    crate::rpc::lemma_models_of(items@);
                    assert(Value::models_of(items@) =~= seq![v.model()]);
                }
                Some((items, k + 1))
            } else {
                None
            }
        },
    }
}

#[verifier::loop_isolation(false)]
fn parse_members(s: &[u8], i: usize) -> (r: Option<(Vec<(String, Value)>, usize)>)
    ensures
        r matches Some(p) ==> sp_members(s@, i as int) == Some(
            (Value::entry_models_of(p.0@), p.1 as int),
        ) && i < p.1 <= s@.len(),
        r is None ==> sp_members(s@, i as int) is None,
    decreases s@.len() - i, 1int,
{
    if i >= s.len() {
        return None;
    }
    if s[i] != 34 {
        return None;
    }
    match parse_string_body(s, i + 1) {
        None => None,
        Some((key, j0)) => {
            let m0 = next_at_x(s, i, j0);
            let k = skip_ws(s, m0);
            if k < s.len() && s[k] == 58 {
                let w = skip_ws(s, k + 1);
                let v0 = next_at_x(s, i, w);
                match parse_value(s, v0) {
                    None => None,
                    Some((v, j1)) => {
                        let m1 = next_at_x(s, i, j1);
                        let k2 = skip_ws(s, m1);
                        if k2 < s.len() && s[k2] == 44 {
                            let m2 = next_at_x(s, i, skip_ws(s, k2 + 1));
                            match parse_members(s, m2) {
                                Some((entries, j)) => {
                                    let ghost old_entries = entries@;
                                    let ghost key_model = key@;
                                    let ghost val_model = v.model();
                                    let mut entries = entries;
                                    entries.insert(0, (key, v));
                                    proof {
                                        crate::rpc::lemma_entry_models_of(entries@);
                                        crate::rpc::lemma_entry_models_of(old_entries);
                                        assert forall|q: int|
                                            0 <= q < entries@.len() implies Value::entry_models_of(
                                            entries@,
                                        )[q] == (seq![(key_model, val_model)]
                                            + Value::entry_models_of(old_entries))[q] by {
                                            if q > 0 {
                                                assert(entries@[q] == old_entries[q - 1]);
                                            } else {
                                                assert(entries@[0].0@ == key_model);
                                                assert(entries@[0].1 == v);
                                            }
                                        }
                                        assert(Value::entry_models_of(entries@) =~= seq![
                                            (key_model, val_model),
                                        ] + Value::entry_models_of(old_entries));
                                    }
                                    Some((entries, j))
                                },
                                None => None,
                            }
                        } else if k2 < s.len() && s[k2] == 125 {
                            let ghost key_model = key@;
                            let ghost val_model = v.model();
                            let mut entries: Vec<(String, Value)> = Vec::new();
                            entries.push((key, v));
                            proof {
                                crate::rpc::lemma_entry_models_of(entries@);
                                assert(Value::entry_models_of(entries@) =~= seq![
                                    (key_model, val_model),
                                ]);
                            }
                            Some((entries, k2 + 1))
                        } else {
                            None
                        }
                    },
                }
            } else {
                None
            }
        },
    }
}

/// Parse a whole byte run as one wire value: optional whitespace, the
/// value, optional whitespace, end of input.
pub(crate) fn parse_json(s: &[u8]) -> (r: Option<Value>)
    ensures
        r matches Some(v) ==> sp_json(s@) == Some(v@),
        r is None ==> sp_json(s@) is None,
{
    let i = skip_ws(s, 0);
    match parse_value(s, i) {
        Some((v, j)) => {
            let k = skip_ws(s, j);
            if k == s.len() {
                Some(v)
            } else {
                None
            }
        },
        None => None,
    }
}

} // verus!
