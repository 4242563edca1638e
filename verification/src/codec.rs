//! Persisted-ledger codec. The ledger is a JSON array of batches; a batch is
//! a JSON array of pairs; a pair is a two-element JSON array of path strings;
//! the empty ledger is `[]`.
//!
//! The serializer emits the compact canonical form, escaping quotes,
//! backslashes and control characters. The parser is a recursive descent over
//! exactly that grammar, tolerating whitespace between tokens and accepting
//! the usual JSON escapes (`\uXXXX` only for the control range, which is all
//! the serializer ever produces).

use vstd::prelude::*;
use crate::trash::{History, HistoryPair, HistoryPairs, TrashError};

verus! {

/// The hexadecimal digit `d` as a lowercase character; meaningful for `d < 16`.
pub open spec fn hex_char(d: nat) -> char {
    if d == 0 {
        '0'
    } else if d == 1 {
        '1'
    } else if d == 2 {
        '2'
    } else if d == 3 {
        '3'
    } else if d == 4 {
        '4'
    } else if d == 5 {
        '5'
    } else if d == 6 {
        '6'
    } else if d == 7 {
        '7'
    } else if d == 8 {
        '8'
    } else if d == 9 {
        '9'
    } else if d == 10 {
        'a'
    } else if d == 11 {
        'b'
    } else if d == 12 {
        'c'
    } else if d == 13 {
        'd'
    } else if d == 14 {
        'e'
    } else {
        'f'
    }
}

/// How one character is written inside a JSON string: quotes and backslashes
/// are escaped, control characters take the `\u00XX` form, everything else
/// stands as itself.
pub open spec fn esc_char(c: char) -> Seq<char> {
    if c == '"' {
        seq!['\\', '"']
    } else if c == '\\' {
        seq!['\\', '\\']
    } else if (c as u32) < 32 {
        seq!['\\', 'u', '0', '0', hex_char(((c as u32) / 16) as nat), hex_char(
            ((c as u32) % 16) as nat,
        )]
    } else {
        seq![c]
    }
}

/// The body of a JSON string: each character escaped in turn.
pub open spec fn esc_string(s: Seq<char>) -> Seq<char>
    decreases s.len(),
{
    if s.len() == 0 {
        Seq::empty()
    } else {
        esc_string(s.drop_last()) + esc_char(s.last())
    }
}

/// A path as a JSON string.
pub open spec fn ser_string(s: Seq<char>) -> Seq<char> {
    seq!['"'] + esc_string(s) + seq!['"']
}

/// A pair as a two-element JSON array.
pub open spec fn ser_pair(p: (Seq<char>, Seq<char>)) -> Seq<char> {
    seq!['['] + ser_string(p.0) + seq![','] + ser_string(p.1) + seq![']']
}

/// The comma-separated pairs of a batch.
pub open spec fn ser_batch_items(b: Seq<(Seq<char>, Seq<char>)>) -> Seq<char>
    decreases b.len(),
{
    if b.len() == 0 {
        Seq::empty()
    } else if b.len() == 1 {
        ser_pair(b[0])
    } else {
        ser_batch_items(b.drop_last()) + seq![','] + ser_pair(b.last())
    }
}

/// A batch as a JSON array of pairs.
pub open spec fn ser_batch(b: Seq<(Seq<char>, Seq<char>)>) -> Seq<char> {
    seq!['['] + ser_batch_items(b) + seq![']']
}

/// The comma-separated batches of a history.
pub open spec fn ser_history_items(h: Seq<Seq<(Seq<char>, Seq<char>)>>) -> Seq<char>
    decreases h.len(),
{
    if h.len() == 0 {
        Seq::empty()
    } else if h.len() == 1 {
        ser_batch(h[0])
    } else {
        ser_history_items(h.drop_last()) + seq![','] + ser_batch(h.last())
    }
}

/// The whole ledger as a JSON array of batches.
pub open spec fn ser_history(h: Seq<Seq<(Seq<char>, Seq<char>)>>) -> Seq<char> {
    seq!['['] + ser_history_items(h) + seq![']']
}

/// JSON inter-token whitespace.
pub open spec fn is_ws(c: char) -> bool {
    c == ' ' || c == '\n' || c == '\r' || c == '\t'
}

/// First index at or after `i` that does not hold whitespace.
pub open spec fn sp_ws(s: Seq<char>, i: int) -> int
    decreases s.len() - i,
{
    if 0 <= i < s.len() && is_ws(s[i]) {
        sp_ws(s, i + 1)
    } else {
        i
    }
}

/// The value of a hexadecimal digit character.
pub open spec fn hex_val(c: char) -> Option<nat> {
    if c == '0' {
        Some(0 as nat)
    } else if c == '1' {
        Some(1 as nat)
    } else if c == '2' {
        Some(2 as nat)
    } else if c == '3' {
        Some(3 as nat)
    } else if c == '4' {
        Some(4 as nat)
    } else if c == '5' {
        Some(5 as nat)
    } else if c == '6' {
        Some(6 as nat)
    } else if c == '7' {
        Some(7 as nat)
    } else if c == '8' {
        Some(8 as nat)
    } else if c == '9' {
        Some(9 as nat)
    } else if c == 'a' || c == 'A' {
        Some(10 as nat)
    } else if c == 'b' || c == 'B' {
        Some(11 as nat)
    } else if c == 'c' || c == 'C' {
        Some(12 as nat)
    } else if c == 'd' || c == 'D' {
        Some(13 as nat)
    } else if c == 'e' || c == 'E' {
        Some(14 as nat)
    } else if c == 'f' || c == 'F' {
        Some(15 as nat)
    } else {
        None
    }
}

/// What a single-character JSON escape denotes.
pub open spec fn esc_code(c: char) -> Option<char> {
    if c == '"' {
        Some('"')
    } else if c == '\\' {
        Some('\\')
    } else if c == '/' {
        Some('/')
    } else if c == 'b' {
        Some('\u{8}')
    } else if c == 'f' {
        Some('\u{c}')
    } else if c == 'n' {
        Some('\n')
    } else if c == 'r' {
        Some('\r')
    } else if c == 't' {
        Some('\t')
    } else {
        None
    }
}

/// Parse the body of a JSON string from `i` up to its closing quote,
/// extending `acc`: the unescaped content and the index after the quote, or
/// `None` on a malformed body. `\uXXXX` is accepted only for the control
/// range, which is all the serializer emits; raw control characters are
/// rejected.
pub open spec fn sp_str_body(s: Seq<char>, i: int, acc: Seq<char>) -> Option<(Seq<char>, int)>
    decreases s.len() - i,
{
    if i < 0 || i >= s.len() {
        None
    } else if s[i] == '"' {
        Some((acc, i + 1))
    } else if s[i] == '\\' {
        if i + 1 >= s.len() {
            None
        } else if s[i + 1] == 'u' {
            if i + 5 >= s.len() {
                None
            } else {
                match (hex_val(s[i + 2]), hex_val(s[i + 3]), hex_val(s[i + 4]), hex_val(s[i + 5])) {
                    (Some(h0), Some(h1), Some(h2), Some(h3)) => {
                        let v = h0 * 4096 + h1 * 256 + h2 * 16 + h3;
                        if v < 32 {
                            sp_str_body(s, i + 6, acc.push((v as u8) as char))
                        } else {
                            None
                        }
                    },
                    _ => None,
                }
            }
        } else {
            match esc_code(s[i + 1]) {
                Some(c) => sp_str_body(s, i + 2, acc.push(c)),
                None => None,
            }
        }
    } else if (s[i] as u32) >= 32 {
        sp_str_body(s, i + 1, acc.push(s[i]))
    } else {
        None
    }
}

/// Parse a JSON string at `i`: content and the index after it.
pub open spec fn sp_string(s: Seq<char>, i: int) -> Option<(Seq<char>, int)> {
    if 0 <= i < s.len() && s[i] == '"' {
        sp_str_body(s, i + 1, Seq::empty())
    } else {
        None
    }
}

/// Parse a two-element JSON array of strings at `i`.
pub open spec fn sp_pair(s: Seq<char>, i: int) -> Option<((Seq<char>, Seq<char>), int)> {
    if 0 <= i < s.len() && s[i] == '[' {
        match sp_string(s, sp_ws(s, i + 1)) {
            Some((a, j1)) => {
                let j2 = sp_ws(s, j1);
                if j2 < s.len() && s[j2] == ',' {
                    match sp_string(s, sp_ws(s, j2 + 1)) {
                        Some((b, j4)) => {
                            let j5 = sp_ws(s, j4);
                            if j5 < s.len() && s[j5] == ']' {
                                Some(((a, b), j5 + 1))
                            } else {
                                None
                            }
                        },
                        None => None,
                    }
                } else {
                    None
                }
            },
            None => None,
        }
    } else {
        None
    }
}

/// Parse the pairs of a non-empty batch from the first pair at `i` through
/// the closing bracket, extending `acc`.
pub open spec fn sp_batch_items(s: Seq<char>, i: int, acc: Seq<(Seq<char>, Seq<char>)>) -> Option<
    (Seq<(Seq<char>, Seq<char>)>, int),
>
    decreases s.len() - i,
{
    match sp_pair(s, i) {
        Some((p, j)) => {
            let k = sp_ws(s, j);
            if k < s.len() && s[k] == ']' {
                Some((acc.push(p), k + 1))
            } else if k < s.len() && s[k] == ',' {
                let k2 = sp_ws(s, k + 1);
                if i < k2 <= s.len() {
                    sp_batch_items(s, k2, acc.push(p))
                } else {
                    None
                }
            } else {
                None
            }
        },
        None => None,
    }
}

/// Parse a JSON array of pairs at `i`.
pub open spec fn sp_batch(s: Seq<char>, i: int) -> Option<(Seq<(Seq<char>, Seq<char>)>, int)> {
    if 0 <= i < s.len() && s[i] == '[' {
        let j = sp_ws(s, i + 1);
        if j < s.len() && s[j] == ']' {
            Some((Seq::empty(), j + 1))
        } else {
            sp_batch_items(s, j, Seq::empty())
        }
    } else {
        None
    }
}

/// Parse the batches of a non-empty history from the first batch at `i`
/// through the closing bracket, extending `acc`.
pub open spec fn sp_history_items(
    s: Seq<char>,
    i: int,
    acc: Seq<Seq<(Seq<char>, Seq<char>)>>,
) -> Option<(Seq<Seq<(Seq<char>, Seq<char>)>>, int)>
    decreases s.len() - i,
{
    match sp_batch(s, i) {
        Some((b, j)) => {
            let k = sp_ws(s, j);
            if k < s.len() && s[k] == ']' {
                Some((acc.push(b), k + 1))
            } else if k < s.len() && s[k] == ',' {
                let k2 = sp_ws(s, k + 1);
                if i < k2 <= s.len() {
                    sp_history_items(s, k2, acc.push(b))
                } else {
                    None
                }
            } else {
                None
            }
        },
        None => None,
    }
}

/// Parse a JSON array of batches at `i`.
pub open spec fn sp_history(s: Seq<char>, i: int) -> Option<
    (Seq<Seq<(Seq<char>, Seq<char>)>>, int),
> {
    if 0 <= i < s.len() && s[i] == '[' {
        let j = sp_ws(s, i + 1);
        if j < s.len() && s[j] == ']' {
            Some((Seq::empty(), j + 1))
        } else {
            sp_history_items(s, j, Seq::empty())
        }
    } else {
        None
    }
}

/// What the whole ledger text denotes: a history surrounded by nothing but
/// whitespace, or `None` when it is malformed.
pub open spec fn spec_parse(s: Seq<char>) -> Option<Seq<Seq<(Seq<char>, Seq<char>)>>> {
    match sp_history(s, sp_ws(s, 0)) {
        Some((h, j)) => {
            if sp_ws(s, j) == s.len() {
                Some(h)
            } else {
                None
            }
        },
        None => None,
    }
}

/// The hexadecimal digit `d` as a one-character string.
fn hex_str(d: u32) -> (r: &'static str)
    requires
        d < 16,
    ensures
        r@ == seq![hex_char(d as nat)],
{
    proof {
        reveal_strlit("0");
        reveal_strlit("1");
        reveal_strlit("2");
        reveal_strlit("3");
        reveal_strlit("4");
        reveal_strlit("5");
        reveal_strlit("6");
        reveal_strlit("7");
        reveal_strlit("8");
        reveal_strlit("9");
        reveal_strlit("a");
        reveal_strlit("b");
        reveal_strlit("c");
        reveal_strlit("d");
        reveal_strlit("e");
        reveal_strlit("f");
    }
    let r = if d == 0 {
        "0"
    } else if d == 1 {
        "1"
    } else if d == 2 {
        "2"
    } else if d == 3 {
        "3"
    } else if d == 4 {
        "4"
    } else if d == 5 {
        "5"
    } else if d == 6 {
        "6"
    } else if d == 7 {
        "7"
    } else if d == 8 {
        "8"
    } else if d == 9 {
        "9"
    } else if d == 10 {
        "a"
    } else if d == 11 {
        "b"
    } else if d == 12 {
        "c"
    } else if d == 13 {
        "d"
    } else if d == 14 {
        "e"
    } else {
        "f"
    };
    proof {
        assert(r@ =~= seq![hex_char(d as nat)]);
    }
    r
}

/// Append the escaped body of `s` to `out`.
fn append_escaped(out: &mut String, s: &str)
    ensures
        final(out)@ == old(out)@ + esc_string(s@),
{
    let n = s.unicode_len();
    let mut i: usize = 0;
    proof {
        assert(s@.subrange(0, 0) =~= Seq::<char>::empty());
        assert(out@ =~= old(out)@ + esc_string(s@.subrange(0, 0)));
    }
    while i < n
        invariant
            i <= n,
            n == s@.len(),
            out@ == old(out)@ + esc_string(s@.subrange(0, i as int)),
        decreases n - i,
    {
        let c = s.get_char(i);
        if c == '"' {
            proof {
                reveal_strlit("\\\"");
                assert("\\\""@ =~= esc_char('"'));
            }
            out.append("\\\"");
        } else if c == '\\' {
            proof {
                reveal_strlit("\\\\");
                assert("\\\\"@ =~= esc_char('\\'));
            }
            out.append("\\\\");
        } else {
            let u = c as u32;
            if u < 32 {
                proof {
                    reveal_strlit("\\u00");
                }
                out.append("\\u00");
                out.append(hex_str(u / 16));
                out.append(hex_str(u % 16));
                proof {
                    assert(out@ =~= old(out)@ + esc_string(s@.subrange(0, i as int)) + esc_char(c));
                }
            } else {
                let piece = s.substring_char(i, i + 1);
                proof {
                    assert(piece@ =~= esc_char(c));
                }
                out.append(piece);
            }
        }
        proof {
            assert(s@.subrange(0, i + 1).drop_last() =~= s@.subrange(0, i as int));
            assert(s@.subrange(0, i + 1).last() == s@[i as int]);
            assert(out@ =~= old(out)@ + esc_string(s@.subrange(0, i + 1)));
        }
        i = i + 1;
    }
    proof {
        assert(s@.subrange(0, n as int) =~= s@);
    }
}

/// Append `s` as a JSON string to `out`.
fn append_json_string(out: &mut String, s: &str)
    ensures
        final(out)@ == old(out)@ + ser_string(s@),
{
    proof {
        reveal_strlit("\"");
        assert("\""@ =~= seq!['"']);
    }
    out.append("\"");
    append_escaped(out, s);
    out.append("\"");
    proof {
        assert(out@ =~= old(out)@ + ser_string(s@));
    }
}

/// Append a pair as a two-element JSON array to `out`.
fn append_pair(out: &mut String, p: &HistoryPair)
    ensures
        final(out)@ == old(out)@ + ser_pair(p@),
{
    proof {
        reveal_strlit("[");
        reveal_strlit(",");
        reveal_strlit("]");
        assert("["@ =~= seq!['[']);
        assert(","@ =~= seq![',']);
        assert("]"@ =~= seq![']']);
    }
    out.append("[");
    append_json_string(out, p.0.as_str());
    out.append(",");
    append_json_string(out, p.1.as_str());
    out.append("]");
    proof {
        assert(out@ =~= old(out)@ + ser_pair(p@));
    }
}

/// Append a batch as a JSON array of pairs to `out`.
fn append_batch(out: &mut String, b: &HistoryPairs)
    ensures
        final(out)@ == old(out)@ + ser_batch(b.deep_view()),
{
    proof {
        reveal_strlit("[");
        reveal_strlit(",");
        reveal_strlit("]");
        assert("["@ =~= seq!['[']);
        assert(","@ =~= seq![',']);
        assert("]"@ =~= seq![']']);
    }
    out.append("[");
    let n = b.len();
    let mut i: usize = 0;
    proof {
        assert(ser_batch_items(b.deep_view().subrange(0, 0)) =~= Seq::<char>::empty());
        assert(out@ =~= old(out)@ + seq!['['] + ser_batch_items(b.deep_view().subrange(0, 0)));
    }
    while i < n
        invariant
            i <= n,
            n == b@.len(),
            out@ == old(out)@ + seq!['['] + ser_batch_items(b.deep_view().subrange(0, i as int)),
            ","@ == seq![','],
        decreases n - i,
    {
        if i > 0 {
            out.append(",");
        }
        append_pair(out, &b[i]);
        proof {
            let bd = b.deep_view();
            assert(bd.subrange(0, i + 1).drop_last() =~= bd.subrange(0, i as int));
            assert(bd.subrange(0, i + 1).last() == bd[i as int]);
            if i == 0 {
                assert(bd.subrange(0, 1).len() == 1);
                assert(ser_batch_items(bd.subrange(0, 1)) == ser_pair(bd.subrange(0, 1)[0]));
                assert(bd.subrange(0, 1)[0] == bd[0]);
            }
            assert(out@ =~= old(out)@ + seq!['['] + ser_batch_items(bd.subrange(0, i + 1)));
        }
        i = i + 1;
    }
    out.append("]");
    proof {
        assert(b.deep_view().subrange(0, n as int) =~= b.deep_view());
        assert(out@ =~= old(out)@ + ser_batch(b.deep_view()));
    }
}

/// Escaping distributes over concatenation.
proof fn lemma_esc_string_concat(a: Seq<char>, b: Seq<char>)
    ensures
        esc_string(a + b) == esc_string(a) + esc_string(b),
    decreases b.len(),
{
    if b.len() == 0 {
        assert(a + b =~= a);
        assert(esc_string(a) + esc_string(b) =~= esc_string(a));
    } else {
        lemma_esc_string_concat(a, b.drop_last());
        assert((a + b).drop_last() =~= a + b.drop_last());
        assert((a + b).last() == b.last());
        assert(esc_string(a + b) =~= esc_string(a) + esc_string(b));
    }
}

/// Escaping a non-empty string starts with its first character's escape.
proof fn lemma_esc_string_first(s: Seq<char>)
    requires
        s.len() > 0,
    ensures
        esc_string(s) == esc_char(s[0]) + esc_string(s.drop_first()),
{
    assert(s =~= seq![s[0]] + s.drop_first());
    lemma_esc_string_concat(seq![s[0]], s.drop_first());
    assert(seq![s[0]].drop_last() =~= Seq::<char>::empty());
    assert(seq![s[0]].last() == s[0]);
    assert(esc_string(Seq::<char>::empty()) =~= Seq::<char>::empty());
    assert(Seq::<char>::empty() + esc_char(s[0]) =~= esc_char(s[0]));
    assert(esc_string(seq![s[0]]) =~= esc_char(s[0]));
}

/// Reading a hexadecimal digit back gives the value it was written from.
proof fn lemma_hex_round_trip(d: nat)
    requires
        d < 16,
    ensures
        hex_val(hex_char(d)) == Some(d),
{
}

/// The body parser reads back exactly what the escaper wrote: on text that
/// continues with the escaped content and the closing quote, it returns the
/// accumulated prefix extended with the content, positioned after the quote.
proof fn lemma_parse_ser_body(t: Seq<char>, pre: Seq<char>, s: Seq<char>, suf: Seq<char>, acc: Seq<
    char,
>)
    requires
        t == pre + esc_string(s) + seq!['"'] + suf,
    ensures
        sp_str_body(t, pre.len() as int, acc) == Some(
            (acc + s, pre.len() + esc_string(s).len() + 1int),
        ),
    decreases s.len(),
{
    let i = pre.len() as int;
    if s.len() == 0 {
        assert(esc_string(s) =~= Seq::<char>::empty());
        assert(t[i] == '"');
        assert(acc + s =~= acc);
    } else {
        let c = s[0];
        let rest = s.drop_first();
        lemma_esc_string_first(s);
        let e = esc_char(c);
        assert(t =~= (pre + e) + esc_string(rest) + seq!['"'] + suf);
        assert(esc_string(s).len() == e.len() + esc_string(rest).len());
        if c == '"' {
            assert(t[i] == '\\');
            assert(t[i + 1] == '"');
            assert(esc_code(t[i + 1]) == Some('"'));
            lemma_parse_ser_body(t, pre + e, rest, suf, acc.push(c));
            assert(acc.push(c) + rest =~= acc + s);
        } else if c == '\\' {
            assert(t[i] == '\\');
            assert(t[i + 1] == '\\');
            assert(esc_code(t[i + 1]) == Some('\\'));
            lemma_parse_ser_body(t, pre + e, rest, suf, acc.push(c));
            assert(acc.push(c) + rest =~= acc + s);
        } else if (c as u32) < 32 {
            let hi = ((c as u32) / 16) as nat;
            let lo = ((c as u32) % 16) as nat;
            assert(t[i] == '\\');
            assert(t[i + 1] == 'u');
            assert(t[i + 2] == '0');
            assert(t[i + 3] == '0');
            assert(t[i + 4] == hex_char(hi));
            assert(t[i + 5] == hex_char(lo));
            lemma_hex_round_trip(hi);
            lemma_hex_round_trip(lo);
            assert(hex_val(t[i + 2]) == Some(0 as nat));
            assert(hex_val(t[i + 3]) == Some(0 as nat));
            let v = 0 * 4096 + 0 * 256 + hi * 16 + lo;
            assert(v == c as u32) by {
                assert((c as u32) / 16 * 16 + (c as u32) % 16 == c as u32) by (nonlinear_arith);
            }
            assert(v < 32);
            vstd::utf8::char_u32_cast(c, c as u32);
            assert(((v as u8) as char) == c);
            lemma_parse_ser_body(t, pre + e, rest, suf, acc.push(c));
            assert(acc.push(c) + rest =~= acc + s);
        } else {
            assert(e =~= seq![c]);
            assert(t[i] == c);
            assert((t[i] as u32) >= 32);
            lemma_parse_ser_body(t, pre + e, rest, suf, acc.push(c));
            assert(acc.push(c) + rest =~= acc + s);
        }
    }
}

/// Skipping whitespace where none stands is a no-op.
proof fn lemma_sp_ws_at(t: Seq<char>, i: int)
    requires
        0 <= i <= t.len(),
        i == t.len() || !is_ws(t[i]),
    ensures
        sp_ws(t, i) == i,
{
}

/// A serialized string parses back to itself.
proof fn lemma_parse_ser_string(t: Seq<char>, pre: Seq<char>, s: Seq<char>, suf: Seq<char>)
    requires
        t == pre + ser_string(s) + suf,
    ensures
        sp_string(t, pre.len() as int) == Some((s, (pre.len() + ser_string(s).len()) as int)),
{
    let i = pre.len() as int;
    assert(t[i] == '"');
    assert(t =~= (pre + seq!['"']) + esc_string(s) + seq!['"'] + suf);
    lemma_parse_ser_body(t, pre + seq!['"'], s, suf, Seq::empty());
    assert(Seq::<char>::empty() + s =~= s);
}

/// A serialized pair parses back to itself.
proof fn lemma_parse_ser_pair(
    t: Seq<char>,
    pre: Seq<char>,
    p: (Seq<char>, Seq<char>),
    suf: Seq<char>,
)
    requires
        t == pre + ser_pair(p) + suf,
    ensures
        sp_pair(t, pre.len() as int) == Some((p, (pre.len() + ser_pair(p).len()) as int)),
{
    let i = pre.len() as int;
    let s0 = ser_string(p.0);
    let s1 = ser_string(p.1);
    assert(t[i] == '[');

    assert(t =~= (pre + seq!['[']) + s0 + (seq![','] + s1 + seq![']'] + suf));
    assert(t[i + 1] == '"');
    lemma_sp_ws_at(t, i + 1);
    lemma_parse_ser_string(t, pre + seq!['['], p.0, seq![','] + s1 + seq![']'] + suf);
    let j1 = i + 1 + s0.len();
    assert(sp_string(t, i + 1) == Some((p.0, j1)));

    assert(t =~= (pre + seq!['['] + s0) + seq![','] + (s1 + seq![']'] + suf));
    assert(t[j1] == ',');
    lemma_sp_ws_at(t, j1);

    assert(t =~= (pre + seq!['['] + s0 + seq![',']) + s1 + (seq![']'] + suf));
    assert(t[j1 + 1] == '"');
    lemma_sp_ws_at(t, j1 + 1);
    lemma_parse_ser_string(t, pre + seq!['['] + s0 + seq![','], p.1, seq![']'] + suf);
    let j4 = j1 + 1 + s1.len();
    assert(sp_string(t, j1 + 1) == Some((p.1, j4)));

    assert(t =~= (pre + seq!['['] + s0 + seq![','] + s1) + seq![']'] + suf);
    assert(t[j4] == ']');
    lemma_sp_ws_at(t, j4);

    assert(sp_pair(t, i) == Some(((p.0, p.1), j4 + 1)));
    assert((p.0, p.1) == p);
    assert(j4 + 1 == i + ser_pair(p).len());
}

/// The comma-separated pairs of a batch, split at the first pair.
proof fn lemma_ser_batch_items_first(b: Seq<(Seq<char>, Seq<char>)>)
    requires
        b.len() >= 2,
    ensures
        ser_batch_items(b) == ser_pair(b[0]) + seq![','] + ser_batch_items(b.drop_first()),
    decreases b.len(),
{
    if b.len() == 2 {
        assert(b.drop_last().len() == 1);
        assert(b.drop_last()[0] == b[0]);
        assert(b.drop_first().len() == 1);
        assert(b.drop_first()[0] == b[1]);
        assert(b.last() == b[1]);
        assert(ser_batch_items(b) == ser_batch_items(b.drop_last()) + seq![','] + ser_pair(
            b.last(),
        ));
        assert(ser_batch_items(b.drop_last()) == ser_pair(b[0]));
        assert(ser_batch_items(b.drop_first()) == ser_pair(b[1]));
        assert(ser_batch_items(b) =~= ser_pair(b[0]) + seq![','] + ser_batch_items(b.drop_first()));
    } else {
        lemma_ser_batch_items_first(b.drop_last());
        assert(b.drop_last().drop_first() =~= b.drop_first().drop_last());
        assert(b.drop_last()[0] == b[0]);
        assert(b.drop_first().len() >= 2);
        assert(b.drop_first().last() == b.last());
        assert(ser_batch_items(b.drop_first()) == ser_batch_items(b.drop_first().drop_last())
            + seq![','] + ser_pair(b.drop_first().last()));
        assert(ser_batch_items(b) =~= ser_pair(b[0]) + seq![','] + ser_batch_items(b.drop_first()));
    }
}

/// A non-empty run of serialized pairs starts with an opening bracket.
proof fn lemma_ser_batch_items_head(b: Seq<(Seq<char>, Seq<char>)>)
    requires
        b.len() >= 1,
    ensures
        ser_batch_items(b).len() > 0,
        ser_batch_items(b)[0] == '[',
{
    if b.len() == 1 {
        assert(ser_batch_items(b) == ser_pair(b[0]));
        assert(ser_pair(b[0])[0] == '[');
    } else {
        lemma_ser_batch_items_first(b);
        assert(ser_pair(b[0])[0] == '[');
        assert(ser_batch_items(b)[0] == '[');
    }
}

/// Serialized pairs parse back to themselves, pair by pair.
#[verifier::rlimit(100)]
proof fn lemma_parse_ser_batch_items(
    t: Seq<char>,
    pre: Seq<char>,
    b: Seq<(Seq<char>, Seq<char>)>,
    suf: Seq<char>,
    acc: Seq<(Seq<char>, Seq<char>)>,
)
    requires
        t == pre + ser_batch_items(b) + seq![']'] + suf,
        b.len() >= 1,
    ensures
        sp_batch_items(t, pre.len() as int, acc) == Some(
            (acc + b, (pre.len() + ser_batch_items(b).len() + 1) as int),
        ),
    decreases b.len(),
{
    let i = pre.len() as int;
    if b.len() == 1 {
        assert(ser_batch_items(b) == ser_pair(b[0]));
        assert(t =~= pre + ser_pair(b[0]) + (seq![']'] + suf));
        lemma_parse_ser_pair(t, pre, b[0], seq![']'] + suf);
        let j = i + ser_pair(b[0]).len();
        assert(t =~= (pre + ser_pair(b[0])) + seq![']'] + suf);
        assert(t[j] == ']');
        lemma_sp_ws_at(t, j);
        assert(acc.push(b[0]) =~= acc + b);
        assert(sp_batch_items(t, i, acc) == Some((acc.push(b[0]), j + 1)));
    } else {
        lemma_ser_batch_items_first(b);
        let sp0 = ser_pair(b[0]);
        let rest = b.drop_first();
        assert(t =~= pre + sp0 + (seq![','] + ser_batch_items(rest) + seq![']'] + suf));
        lemma_parse_ser_pair(t, pre, b[0], seq![','] + ser_batch_items(rest) + seq![']'] + suf);
        let j = i + sp0.len();
        assert(t =~= (pre + sp0) + seq![','] + (ser_batch_items(rest) + seq![']'] + suf));
        assert(t[j] == ',');
        lemma_sp_ws_at(t, j);
        lemma_ser_batch_items_head(rest);
        assert(t =~= (pre + sp0 + seq![',']) + ser_batch_items(rest) + seq![']'] + suf);
        assert(t[j + 1] == '[');
        lemma_sp_ws_at(t, j + 1);
        lemma_parse_ser_batch_items(t, pre + sp0 + seq![','], rest, suf, acc.push(b[0]));
        assert(acc.push(b[0]) + rest =~= acc + b);
    }
}

/// A serialized batch parses back to itself.
proof fn lemma_parse_ser_batch(
    t: Seq<char>,
    pre: Seq<char>,
    b: Seq<(Seq<char>, Seq<char>)>,
    suf: Seq<char>,
)
    requires
        t == pre + ser_batch(b) + suf,
    ensures
        sp_batch(t, pre.len() as int) == Some((b, (pre.len() + ser_batch(b).len()) as int)),
{
    let i = pre.len() as int;
    assert(t[i] == '[');
    if b.len() == 0 {
        assert(ser_batch_items(b) =~= Seq::<char>::empty());
        assert(t =~= (pre + seq!['[']) + seq![']'] + suf);
        assert(t[i + 1] == ']');
        lemma_sp_ws_at(t, i + 1);
        assert(Seq::<(Seq<char>, Seq<char>)>::empty() =~= b);
    } else {
        lemma_ser_batch_items_head(b);
        assert(t =~= (pre + seq!['[']) + ser_batch_items(b) + seq![']'] + suf);
        assert(t[i + 1] == '[');
        lemma_sp_ws_at(t, i + 1);
        lemma_parse_ser_batch_items(t, pre + seq!['['], b, suf, Seq::empty());
        assert(Seq::<(Seq<char>, Seq<char>)>::empty() + b =~= b);
    }
}

/// The comma-separated batches of a history, split at the first batch.
proof fn lemma_ser_history_items_first(h: Seq<Seq<(Seq<char>, Seq<char>)>>)
    requires
        h.len() >= 2,
    ensures
        ser_history_items(h) == ser_batch(h[0]) + seq![','] + ser_history_items(h.drop_first()),
    decreases h.len(),
{
    if h.len() == 2 {
        assert(h.drop_last().len() == 1);
        assert(h.drop_last()[0] == h[0]);
        assert(h.drop_first().len() == 1);
        assert(h.drop_first()[0] == h[1]);
        assert(h.last() == h[1]);
        assert(ser_history_items(h) == ser_history_items(h.drop_last()) + seq![','] + ser_batch(
            h.last(),
        ));
        assert(ser_history_items(h.drop_last()) == ser_batch(h[0]));
        assert(ser_history_items(h.drop_first()) == ser_batch(h[1]));
        assert(ser_history_items(h) =~= ser_batch(h[0]) + seq![','] + ser_history_items(
            h.drop_first(),
        ));
    } else {
        lemma_ser_history_items_first(h.drop_last());
        assert(h.drop_last().drop_first() =~= h.drop_first().drop_last());
        assert(h.drop_last()[0] == h[0]);
        assert(h.drop_first().len() >= 2);
        assert(h.drop_first().last() == h.last());
        assert(ser_history_items(h.drop_first()) == ser_history_items(h.drop_first().drop_last())
            + seq![','] + ser_batch(h.drop_first().last()));
        assert(ser_history_items(h) =~= ser_batch(h[0]) + seq![','] + ser_history_items(
            h.drop_first(),
        ));
    }
}

/// A non-empty run of serialized batches starts with an opening bracket.
proof fn lemma_ser_history_items_head(h: Seq<Seq<(Seq<char>, Seq<char>)>>)
    requires
        h.len() >= 1,
    ensures
        ser_history_items(h).len() > 0,
        ser_history_items(h)[0] == '[',
{
    if h.len() == 1 {
        assert(ser_history_items(h) == ser_batch(h[0]));
        assert(ser_batch(h[0])[0] == '[');
    } else {
        lemma_ser_history_items_first(h);
        assert(ser_batch(h[0])[0] == '[');
        assert(ser_history_items(h)[0] == '[');
    }
}

/// One serialized batch followed by the closing bracket parses back as the
/// last element of the run.
#[verifier::rlimit(100)]
proof fn lemma_parse_ser_history_items_last(
    t: Seq<char>,
    pre: Seq<char>,
    h: Seq<Seq<(Seq<char>, Seq<char>)>>,
    suf: Seq<char>,
    acc: Seq<Seq<(Seq<char>, Seq<char>)>>,
)
    requires
        t == pre + ser_history_items(h) + seq![']'] + suf,
        h.len() == 1,
    ensures
        sp_history_items(t, pre.len() as int, acc) == Some(
            (acc + h, (pre.len() + ser_history_items(h).len() + 1) as int),
        ),
{
    let i = pre.len() as int;
    assert(ser_history_items(h) == ser_batch(h[0]));
    assert(t =~= pre + ser_batch(h[0]) + (seq![']'] + suf));
    lemma_parse_ser_batch(t, pre, h[0], seq![']'] + suf);
    let j = i + ser_batch(h[0]).len();
    assert(t =~= (pre + ser_batch(h[0])) + seq![']'] + suf);
    assert(t[j] == ']');
    lemma_sp_ws_at(t, j);
    assert(acc.push(h[0]) =~= acc + h);
    assert(sp_history_items(t, i, acc) == Some((acc.push(h[0]), j + 1)));
}

/// Serialized batches parse back to themselves, batch by batch.
#[verifier::rlimit(100)]
proof fn lemma_parse_ser_history_items(
    t: Seq<char>,
    pre: Seq<char>,
    h: Seq<Seq<(Seq<char>, Seq<char>)>>,
    suf: Seq<char>,
    acc: Seq<Seq<(Seq<char>, Seq<char>)>>,
)
    requires
        t == pre + ser_history_items(h) + seq![']'] + suf,
        h.len() >= 1,
    ensures
        sp_history_items(t, pre.len() as int, acc) == Some(
            (acc + h, (pre.len() + ser_history_items(h).len() + 1) as int),
        ),
    decreases h.len(),
{
    let i = pre.len() as int;
    if h.len() == 1 {
        lemma_parse_ser_history_items_last(t, pre, h, suf, acc);
    } else {
        lemma_ser_history_items_first(h);
        let sb0 = ser_batch(h[0]);
        let rest = h.drop_first();
        assert(t =~= pre + sb0 + (seq![','] + ser_history_items(rest) + seq![']'] + suf));
        lemma_parse_ser_batch(t, pre, h[0], seq![','] + ser_history_items(rest) + seq![']'] + suf);
        let j = i + sb0.len();
        assert(t =~= (pre + sb0) + seq![','] + (ser_history_items(rest) + seq![']'] + suf));
        assert(t[j] == ',');
        lemma_sp_ws_at(t, j);
        lemma_ser_history_items_head(rest);
        assert(t =~= (pre + sb0 + seq![',']) + ser_history_items(rest) + seq![']'] + suf);
        assert(t[j + 1] == '[');
        lemma_sp_ws_at(t, j + 1);
        lemma_parse_ser_history_items(t, pre + sb0 + seq![','], rest, suf, acc.push(h[0]));
        assert(acc.push(h[0]) + rest =~= acc + h);
    }
}

/// A serialized history parses back to itself.
proof fn lemma_parse_ser_history(
    t: Seq<char>,
    pre: Seq<char>,
    h: Seq<Seq<(Seq<char>, Seq<char>)>>,
    suf: Seq<char>,
)
    requires
        t == pre + ser_history(h) + suf,
    ensures
        sp_history(t, pre.len() as int) == Some((h, (pre.len() + ser_history(h).len()) as int)),
{
    let i = pre.len() as int;
    assert(t[i] == '[');
    if h.len() == 0 {
        assert(ser_history_items(h) =~= Seq::<char>::empty());
        assert(t =~= (pre + seq!['[']) + seq![']'] + suf);
        assert(t[i + 1] == ']');
        lemma_sp_ws_at(t, i + 1);
        assert(Seq::<Seq<(Seq<char>, Seq<char>)>>::empty() =~= h);
    } else {
        lemma_ser_history_items_head(h);
        assert(t =~= (pre + seq!['[']) + ser_history_items(h) + seq![']'] + suf);
        assert(t[i + 1] == '[');
        lemma_sp_ws_at(t, i + 1);
        lemma_parse_ser_history_items(t, pre + seq!['['], h, suf, Seq::empty());
        assert(Seq::<Seq<(Seq<char>, Seq<char>)>>::empty() + h =~= h);
    }
}

/// Persistence round trip: a batch order written out by the serializer is
/// read back unchanged — parsing the serialized ledger yields exactly the
/// history it was written from. Together with the contracts of
/// [`serialize_history`] and [`parse_history`], this says that
/// `parse_history(serialize_history(h))` is `Ok(h)` for every history.
pub proof fn lemma_parse_serialize_round_trip(h: Seq<Seq<(Seq<char>, Seq<char>)>>)
    ensures
        spec_parse(ser_history(h)) == Some(h),
{
    let t = ser_history(h);
    assert(t =~= Seq::<char>::empty() + ser_history(h) + Seq::<char>::empty());
    assert(t[0] == '[');
    lemma_sp_ws_at(t, 0);
    lemma_parse_ser_history(t, Seq::empty(), h, Seq::empty());
    assert(sp_history(t, 0) == Some((h, t.len() as int)));
    lemma_sp_ws_at(t, t.len() as int);
}

/// First index at or after `i` that does not hold whitespace.
fn skip_ws(s: &str, i: usize) -> (r: usize)
    requires
        i <= s@.len(),
    ensures
        r as int == sp_ws(s@, i as int),
        i <= r <= s@.len(),
    decreases s@.len() - i,
{
    let n = s.unicode_len();
    if i < n {
        let c = s.get_char(i);
        if c == ' ' || c == '\n' || c == '\r' || c == '\t' {
            return skip_ws(s, i + 1);
        }
    }
    i
}

/// The value of a hexadecimal digit character.
fn hex_digit(c: char) -> (r: Option<u32>)
    ensures
        match r {
            Some(v) => hex_val(c) == Some(v as nat) && v < 16,
            None => hex_val(c) is None,
        },
{
    if c == '0' {
        Some(0)
    } else if c == '1' {
        Some(1)
    } else if c == '2' {
        Some(2)
    } else if c == '3' {
        Some(3)
    } else if c == '4' {
        Some(4)
    } else if c == '5' {
        Some(5)
    } else if c == '6' {
        Some(6)
    } else if c == '7' {
        Some(7)
    } else if c == '8' {
        Some(8)
    } else if c == '9' {
        Some(9)
    } else if c == 'a' || c == 'A' {
        Some(10)
    } else if c == 'b' || c == 'B' {
        Some(11)
    } else if c == 'c' || c == 'C' {
        Some(12)
    } else if c == 'd' || c == 'D' {
        Some(13)
    } else if c == 'e' || c == 'E' {
        Some(14)
    } else if c == 'f' || c == 'F' {
        Some(15)
    } else {
        None
    }
}

/// What a single-character escape denotes, as a one-character string.
fn esc_str(e: char) -> (r: Option<&'static str>)
    ensures
        match r {
            Some(t) => match esc_code(e) {
                Some(c) => t@ == seq![c],
                None => false,
            },
            None => esc_code(e) is None,
        },
{
    proof {
        reveal_strlit("\"");
        reveal_strlit("\\");
        reveal_strlit("/");
        reveal_strlit("\u{8}");
        reveal_strlit("\u{c}");
        reveal_strlit("\n");
        reveal_strlit("\r");
        reveal_strlit("\t");
    }
    let r = if e == '"' {
        Some("\"")
    } else if e == '\\' {
        Some("\\")
    } else if e == '/' {
        Some("/")
    } else if e == 'b' {
        Some("\u{8}")
    } else if e == 'f' {
        Some("\u{c}")
    } else if e == 'n' {
        Some("\n")
    } else if e == 'r' {
        Some("\r")
    } else if e == 't' {
        Some("\t")
    } else {
        None
    };
    proof {
        match r {
            Some(t) => {
                assert(t@ =~= seq![esc_code(e).unwrap()]);
            },
            None => {},
        }
    }
    r
}

/// The control character with code `v`, as a one-character string.
fn ctrl_str(v: u32) -> (r: &'static str)
    requires
        v < 32,
    ensures
        r@ == seq![(v as u8) as char],
{
    proof {
        reveal_strlit("\u{0}");
        reveal_strlit("\u{1}");
        reveal_strlit("\u{2}");
        reveal_strlit("\u{3}");
        reveal_strlit("\u{4}");
        reveal_strlit("\u{5}");
        reveal_strlit("\u{6}");
        reveal_strlit("\u{7}");
        reveal_strlit("\u{8}");
        reveal_strlit("\u{9}");
        reveal_strlit("\u{a}");
        reveal_strlit("\u{b}");
        reveal_strlit("\u{c}");
        reveal_strlit("\u{d}");
        reveal_strlit("\u{e}");
        reveal_strlit("\u{f}");
        reveal_strlit("\u{10}");
        reveal_strlit("\u{11}");
        reveal_strlit("\u{12}");
        reveal_strlit("\u{13}");
        reveal_strlit("\u{14}");
        reveal_strlit("\u{15}");
        reveal_strlit("\u{16}");
        reveal_strlit("\u{17}");
        reveal_strlit("\u{18}");
        reveal_strlit("\u{19}");
        reveal_strlit("\u{1a}");
        reveal_strlit("\u{1b}");
        reveal_strlit("\u{1c}");
        reveal_strlit("\u{1d}");
        reveal_strlit("\u{1e}");
        reveal_strlit("\u{1f}");
    }
    let r = if v == 0 {
        "\u{0}"
    } else if v == 1 {
        "\u{1}"
    } else if v == 2 {
        "\u{2}"
    } else if v == 3 {
        "\u{3}"
    } else if v == 4 {
        "\u{4}"
    } else if v == 5 {
        "\u{5}"
    } else if v == 6 {
        "\u{6}"
    } else if v == 7 {
        "\u{7}"
    } else if v == 8 {
        "\u{8}"
    } else if v == 9 {
        "\u{9}"
    } else if v == 10 {
        "\u{a}"
    } else if v == 11 {
        "\u{b}"
    } else if v == 12 {
        "\u{c}"
    } else if v == 13 {
        "\u{d}"
    } else if v == 14 {
        "\u{e}"
    } else if v == 15 {
        "\u{f}"
    } else if v == 16 {
        "\u{10}"
    } else if v == 17 {
        "\u{11}"
    } else if v == 18 {
        "\u{12}"
    } else if v == 19 {
        "\u{13}"
    } else if v == 20 {
        "\u{14}"
    } else if v == 21 {
        "\u{15}"
    } else if v == 22 {
        "\u{16}"
    } else if v == 23 {
        "\u{17}"
    } else if v == 24 {
        "\u{18}"
    } else if v == 25 {
        "\u{19}"
    } else if v == 26 {
        "\u{1a}"
    } else if v == 27 {
        "\u{1b}"
    } else if v == 28 {
        "\u{1c}"
    } else if v == 29 {
        "\u{1d}"
    } else if v == 30 {
        "\u{1e}"
    } else {
        "\u{1f}"
    };
    proof {
        assert(r@ =~= seq![(v as u8) as char]);
    }
    r
}

/// Parse the body of a JSON string from `i`, extending `acc`.
fn parse_str_body(s: &str, i: usize, acc: String) -> (r: Option<(String, usize)>)
    requires
        i <= s@.len(),
    ensures
        match r {
            Some(v) => sp_str_body(s@, i as int, acc@) == Some((v.0@, v.1 as int)) && i < v.1
                <= s@.len(),
            None => sp_str_body(s@, i as int, acc@) is None,
        },
    decreases s@.len() - i,
{
    let n = s.unicode_len();
    if i >= n {
        return None;
    }
    let c = s.get_char(i);
    if c == '"' {
        return Some((acc, i + 1));
    }
    if c == '\\' {
        if i + 1 >= n {
            return None;
        }
        let e = s.get_char(i + 1);
        if e == 'u' {
            if n - i <= 5 {
                return None;
            }
            let h0 = hex_digit(s.get_char(i + 2));
            let h1 = hex_digit(s.get_char(i + 3));
            let h2 = hex_digit(s.get_char(i + 4));
            let h3 = hex_digit(s.get_char(i + 5));
            match (h0, h1, h2, h3) {
                (Some(a0), Some(a1), Some(a2), Some(a3)) => {
                    let v = a0 * 4096 + a1 * 256 + a2 * 16 + a3;
                    if v < 32 {
                        let mut acc2 = acc;
                        acc2.append(ctrl_str(v));
                        proof {
                            assert(acc2@ =~= acc@.push((v as u8) as char));
                        }
                        parse_str_body(s, i + 6, acc2)
                    } else {
                        None
                    }
                },
                _ => None,
            }
        } else {
            match esc_str(e) {
                Some(t) => {
                    let mut acc2 = acc;
                    acc2.append(t);
                    proof {
                        assert(acc2@ =~= acc@.push(esc_code(e).unwrap()));
                    }
                    parse_str_body(s, i + 2, acc2)
                },
                None => None,
            }
        }
    } else {
        let u = c as u32;
        if u >= 32 {
            let piece = s.substring_char(i, i + 1);
            let mut acc2 = acc;
            acc2.append(piece);
            proof {
                assert(acc2@ =~= acc@.push(c));
            }
            parse_str_body(s, i + 1, acc2)
        } else {
            None
        }
    }
}

/// Parse a JSON string at `i`.
fn parse_string_at(s: &str, i: usize) -> (r: Option<(String, usize)>)
    requires
        i <= s@.len(),
    ensures
        match r {
            Some(v) => sp_string(s@, i as int) == Some((v.0@, v.1 as int)) && i < v.1 <= s@.len(),
            None => sp_string(s@, i as int) is None,
        },
{
    let n = s.unicode_len();
    if i < n {
        let c = s.get_char(i);
        if c == '"' {
            return parse_str_body(s, i + 1, String::new());
        }
    }
    None
}

/// Parse a two-element JSON array of strings at `i`.
fn parse_pair_at(s: &str, i: usize) -> (r: Option<(HistoryPair, usize)>)
    requires
        i <= s@.len(),
    ensures
        match r {
            Some(v) => sp_pair(s@, i as int) == Some((v.0@, v.1 as int)) && i < v.1 <= s@.len(),
            None => sp_pair(s@, i as int) is None,
        },
{
    let n = s.unicode_len();
    if i >= n {
        return None;
    }
    if s.get_char(i) != '[' {
        return None;
    }
    let j0 = skip_ws(s, i + 1);
    let first = match parse_string_at(s, j0) {
        Some(x) => x,
        None => {
            return None;
        },
    };
    let j2 = skip_ws(s, first.1);
    if j2 >= n {
        return None;
    }
    if s.get_char(j2) != ',' {
        return None;
    }
    let j3 = skip_ws(s, j2 + 1);
    let second = match parse_string_at(s, j3) {
        Some(x) => x,
        None => {
            return None;
        },
    };
    let j5 = skip_ws(s, second.1);
    if j5 >= n {
        return None;
    }
    if s.get_char(j5) != ']' {
        return None;
    }
    Some((HistoryPair(first.0, second.0), j5 + 1))
}

/// Parse the pairs of a non-empty batch from the first pair at `i`.
fn parse_batch_items(s: &str, i: usize, acc: HistoryPairs) -> (r: Option<(HistoryPairs, usize)>)
    requires
        i <= s@.len(),
    ensures
        match r {
            Some(v) => sp_batch_items(s@, i as int, acc.deep_view()) == Some(
                (v.0.deep_view(), v.1 as int),
            ) && i < v.1 <= s@.len(),
            None => sp_batch_items(s@, i as int, acc.deep_view()) is None,
        },
    decreases s@.len() - i,
{
    let n = s.unicode_len();
    let head = match parse_pair_at(s, i) {
        Some(x) => x,
        None => {
            return None;
        },
    };
    let k = skip_ws(s, head.1);
    if k >= n {
        return None;
    }
    let c = s.get_char(k);
    if c == ']' {
        let mut acc2 = acc;
        acc2.push(head.0);
        proof {
            assert(acc2.deep_view() =~= acc.deep_view().push(head.0@));
        }
        return Some((acc2, k + 1));
    }
    if c == ',' {
        let k2 = skip_ws(s, k + 1);
        let mut acc2 = acc;
        acc2.push(head.0);
        proof {
            assert(acc2.deep_view() =~= acc.deep_view().push(head.0@));
        }
        return parse_batch_items(s, k2, acc2);
    }
    None
}

/// Parse a JSON array of pairs at `i`.
fn parse_batch_at(s: &str, i: usize) -> (r: Option<(HistoryPairs, usize)>)
    requires
        i <= s@.len(),
    ensures
        match r {
            Some(v) => sp_batch(s@, i as int) == Some((v.0.deep_view(), v.1 as int)) && i < v.1
                <= s@.len(),
            None => sp_batch(s@, i as int) is None,
        },
{
    let n = s.unicode_len();
    if i >= n {
        return None;
    }
    if s.get_char(i) != '[' {
        return None;
    }
    let j = skip_ws(s, i + 1);
    if j < n && s.get_char(j) == ']' {
        let empty: HistoryPairs = Vec::new();
        proof {
            assert(empty.deep_view() =~= Seq::<(Seq<char>, Seq<char>)>::empty());
        }
        return Some((empty, j + 1));
    }
    let empty: HistoryPairs = Vec::new();
    proof {
        assert(empty.deep_view() =~= Seq::<(Seq<char>, Seq<char>)>::empty());
    }
    parse_batch_items(s, j, empty)
}

/// Parse the batches of a non-empty history from the first batch at `i`.
fn parse_history_items(s: &str, i: usize, acc: History) -> (r: Option<(History, usize)>)
    requires
        i <= s@.len(),
    ensures
        match r {
            Some(v) => sp_history_items(s@, i as int, acc.deep_view()) == Some(
                (v.0.deep_view(), v.1 as int),
            ) && i < v.1 <= s@.len(),
            None => sp_history_items(s@, i as int, acc.deep_view()) is None,
        },
    decreases s@.len() - i,
{
    let n = s.unicode_len();
    let head = match parse_batch_at(s, i) {
        Some(x) => x,
        None => {
            return None;
        },
    };
    let k = skip_ws(s, head.1);
    if k >= n {
        return None;
    }
    let c = s.get_char(k);
    if c == ']' {
        let mut acc2 = acc;
        acc2.push(head.0);
        proof {
            assert(acc2.deep_view() =~= acc.deep_view().push(head.0.deep_view()));
        }
        return Some((acc2, k + 1));
    }
    if c == ',' {
        let k2 = skip_ws(s, k + 1);
        let mut acc2 = acc;
        acc2.push(head.0);
        proof {
            assert(acc2.deep_view() =~= acc.deep_view().push(head.0.deep_view()));
        }
        return parse_history_items(s, k2, acc2);
    }
    None
}

/// Parse a JSON array of batches at `i`.
fn parse_history_at(s: &str, i: usize) -> (r: Option<(History, usize)>)
    requires
        i <= s@.len(),
    ensures
        match r {
            Some(v) => sp_history(s@, i as int) == Some((v.0.deep_view(), v.1 as int)) && i < v.1
                <= s@.len(),
            None => sp_history(s@, i as int) is None,
        },
{
    let n = s.unicode_len();
    if i >= n {
        return None;
    }
    if s.get_char(i) != '[' {
        return None;
    }
    let j = skip_ws(s, i + 1);
    if j < n && s.get_char(j) == ']' {
        let empty: History = Vec::new();
        proof {
            assert(empty.deep_view() =~= Seq::<Seq<(Seq<char>, Seq<char>)>>::empty());
        }
        return Some((empty, j + 1));
    }
    let empty: History = Vec::new();
    proof {
        assert(empty.deep_view() =~= Seq::<Seq<(Seq<char>, Seq<char>)>>::empty());
    }
    parse_history_items(s, j, empty)
}

/// Read the whole ledger text back into a history: exactly what
/// [`spec_parse`] denotes, or a serialization error when it is malformed.
pub fn parse_history(s: &str) -> (r: Result<History, TrashError>)
    ensures
        match r {
            Ok(h) => spec_parse(s@) == Some(h.deep_view()),
            Err(e) => spec_parse(s@) is None && (e matches TrashError::Serialization(_)),
        },
{
    let i = skip_ws(s, 0);
    match parse_history_at(s, i) {
        Some(got) => {
            let k = skip_ws(s, got.1);
            if k == s.unicode_len() {
                Ok(got.0)
            } else {
                Err(TrashError::Serialization("trailing content after ledger".to_owned()))
            }
        },
        None => Err(TrashError::Serialization("malformed ledger".to_owned())),
    }
}

/// The whole ledger in its persisted form.
pub fn serialize_history(h: &History) -> (r: String)
    ensures
        r@ == ser_history(h.deep_view()),
{
    proof {
        reveal_strlit("[");
        reveal_strlit(",");
        reveal_strlit("]");
        assert("["@ =~= seq!['[']);
        assert(","@ =~= seq![',']);
        assert("]"@ =~= seq![']']);
    }
    let mut out: String = "[".to_owned();
    let n = h.len();
    let mut i: usize = 0;
    proof {
        assert(ser_history_items(h.deep_view().subrange(0, 0)) =~= Seq::<char>::empty());
        assert(out@ =~= seq!['['] + ser_history_items(h.deep_view().subrange(0, 0)));
    }
    while i < n
        invariant
            i <= n,
            n == h@.len(),
            out@ == seq!['['] + ser_history_items(h.deep_view().subrange(0, i as int)),
            ","@ == seq![','],
        decreases n - i,
    {
        if i > 0 {
            out.append(",");
        }
        append_batch(&mut out, &h[i]);
        proof {
            let hd = h.deep_view();
            assert(hd.subrange(0, i + 1).drop_last() =~= hd.subrange(0, i as int));
            assert(hd.subrange(0, i + 1).last() == hd[i as int]);
            if i == 0 {
                assert(hd.subrange(0, 1).len() == 1);
                assert(ser_history_items(hd.subrange(0, 1)) == ser_batch(hd.subrange(0, 1)[0]));
                assert(hd.subrange(0, 1)[0] == hd[0]);
            }
            assert(out@ =~= seq!['['] + ser_history_items(hd.subrange(0, i + 1)));
        }
        i = i + 1;
    }
    out.append("]");
    proof {
        assert(h.deep_view().subrange(0, n as int) =~= h.deep_view());
        assert(out@ =~= ser_history(h.deep_view()));
    }
    out
}

} // verus!
