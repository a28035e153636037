//! Small string utilities used when printing device descriptions.
use vstd::prelude::*;
use crate::text::{push_char, copy_str};

verus! {

/// Whether `c` has the Unicode `White_Space` property (the set that
/// `char::is_whitespace` documents).
pub open spec fn is_ws(c: char) -> bool {
    ||| c == ' ' || c == '\t' || c == '\n' || c == '\r'
    ||| c == '\u{0B}' || c == '\u{0C}' || c == '\u{85}' || c == '\u{A0}'
    ||| c == '\u{1680}' || ('\u{2000}' <= c && c <= '\u{200A}')
    ||| c == '\u{2028}' || c == '\u{2029}' || c == '\u{202F}' || c == '\u{205F}'
    ||| c == '\u{3000}'
}

/// Executable test of [`is_ws`].
pub fn is_whitespace(c: char) -> (r: bool)
    ensures
        r == is_ws(c),
{
    c == ' ' || c == '\t' || c == '\n' || c == '\r' || c == '\u{0B}' || c == '\u{0C}'
        || c == '\u{85}' || c == '\u{A0}' || c == '\u{1680}' || ('\u{2000}' <= c && c
        <= '\u{200A}') || c == '\u{2028}' || c == '\u{2029}' || c == '\u{202F}' || c
        == '\u{205F}' || c == '\u{3000}'
}

/// The maximal runs of non-whitespace characters of `s`, in order.
pub open spec fn words(s: Seq<char>) -> Seq<Seq<char>>
    decreases s.len(),
{
    if s.len() == 0 {
        Seq::empty()
    } else {
        let w = words(s.drop_last());
        let c = s.last();
        if is_ws(c) {
            w
        } else if s.len() >= 2 && !is_ws(s[s.len() - 2]) {
            w.update(w.len() - 1, w.last().push(c))
        } else {
            w.push(seq![c])
        }
    }
}

/// The items of `ws` with `sep` between consecutive items.
pub open spec fn join(ws: Seq<Seq<char>>, sep: Seq<char>) -> Seq<char>
    decreases ws.len(),
{
    if ws.len() == 0 {
        Seq::empty()
    } else if ws.len() == 1 {
        ws[0]
    } else {
        join(ws.drop_last(), sep) + sep + ws.last()
    }
}

/// A run of non-whitespace ending at a non-whitespace character is the last word.
proof fn lemma_words_nonempty(s: Seq<char>)
    requires
        s.len() > 0,
        !is_ws(s.last()),
    ensures
        words(s).len() > 0,
    decreases s.len(),
{
    if s.len() >= 2 && !is_ws(s[s.len() - 2]) {
        assert(s.drop_last().last() == s[s.len() - 2]);
        lemma_words_nonempty(s.drop_last());
    }
}

/// Extending the last word by one character extends the joined text by it.
proof fn lemma_join_extend_last(ws: Seq<Seq<char>>, sep: Seq<char>, c: char)
    requires
        ws.len() > 0,
    ensures
        join(ws.update(ws.len() - 1, ws.last().push(c)), sep) == join(ws, sep).push(c),
{
    let ws2 = ws.update(ws.len() - 1, ws.last().push(c));
    if ws.len() == 1 {
    } else {
        assert(ws2.drop_last() =~= ws.drop_last());
        assert((join(ws.drop_last(), sep) + sep + ws.last()).push(c) =~= join(ws.drop_last(), sep)
            + sep + ws.last().push(c));
    }
}

/// The text of `opt_str`, or the empty text when there is none.
pub open spec fn text_or_empty(opt_str: Option<String>) -> Seq<char> {
    match opt_str {
        Some(s) => s@,
        None => Seq::empty(),
    }
}

/// Returns the text of `opt_str`, or `""` when it is `None`.
pub fn unwrap_or_empty_str(opt_str: &Option<String>) -> (r: &str)
    ensures
        r@ == text_or_empty(*opt_str),
{
    match opt_str {
        Some(desc) => desc.as_str(),
        None => {
            let e = "";
            proof {
                reveal_strlit("");
            }
            assert(e@ =~= Seq::<char>::empty());
            e
        },
    }
}

/// Returns the description with every run of whitespace collapsed into a
/// single space and leading and trailing whitespace removed.
pub fn get_description(opt_str: &Option<String>) -> (r: String)
    ensures
        r@ == join(words(text_or_empty(*opt_str)), seq![' ']),
{
    let desc = unwrap_or_empty_str(opt_str);
    let n = desc.unicode_len();
    let ghost s = desc@;
    let mut out = String::new();
    let mut seen_word = false;
    let mut i: usize = 0;
    while i < n
        invariant
            s == desc@,
            n == s.len(),
            i <= n,
            out@ == join(words(s.take(i as int)), seq![' ']),
            seen_word == (words(s.take(i as int)).len() > 0),
        decreases n - i,
    {
        let c = desc.get_char(i);
        let ghost pre = s.take(i as int);
        let ghost cur = s.take(i + 1);
        assert(cur.drop_last() =~= pre);
        assert(cur.last() == c);
        if is_whitespace(c) {
        } else {
            let prev_word = i > 0 && !is_whitespace(desc.get_char(i - 1));
            if prev_word {
                assert(pre.last() == s[i - 1]);
                proof {
                    lemma_words_nonempty(pre);
                    lemma_join_extend_last(words(pre), seq![' '], c);
                }
                push_char(&mut out, c);
            } else {
                proof {
                    let w = words(pre);
                    let w2 = w.push(seq![c]);
                    assert(w2.drop_last() =~= w);
                    if w.len() == 0 {
                        assert(join(w2, seq![' ']) =~= seq![c]);
                    } else {
                        assert(join(w2, seq![' ']) =~= join(w, seq![' ']) + seq![' '] + seq![c]);
                    }
                }
                if seen_word {
                    push_char(&mut out, ' ');
                }
                push_char(&mut out, c);
                seen_word = true;
            }
        }
        i = i + 1;
    }
    assert(s.take(n as int) =~= s);
    out
}

/// The hexadecimal digit of `d` (`d < 16`), using upper-case letters.
pub open spec fn hex_digit_upper(d: nat) -> char {
    if d < 10 {
        (('0' as nat) + d) as char
    } else {
        (('A' as nat) + (d - 10)) as char
    }
}

/// The upper-case hexadecimal digits of `n`, most significant first, with no
/// leading zeros (`0` is written `0`).
pub open spec fn hex_upper(n: nat) -> Seq<char>
    decreases n,
{
    if n < 16 {
        seq![hex_digit_upper(n)]
    } else {
        hex_upper(n / 16).push(hex_digit_upper(n % 16))
    }
}

fn hex_char_upper(d: u64) -> (c: char)
    requires
        d < 16,
    ensures
        c == hex_digit_upper(d as nat),
{
    if d < 10 {
        (('0' as u8) + (d as u8)) as char
    } else {
        (('A' as u8) + ((d - 10) as u8)) as char
    }
}

fn push_hex_upper(n: u64, out: &mut String)
    ensures
        final(out)@ == old(out)@ + hex_upper(n as nat),
    decreases n,
{
    if n < 16 {
        push_char(out, hex_char_upper(n));
        assert(old(out)@.push(hex_digit_upper(n as nat)) =~= old(out)@ + seq![hex_digit_upper(n as nat)]);
    } else {
        push_hex_upper(n / 16, out);
        push_char(out, hex_char_upper(n % 16));
        assert(old(out)@ + hex_upper((n / 16) as nat).push(hex_digit_upper((n % 16) as nat))
            =~= (old(out)@ + hex_upper((n / 16) as nat)).push(hex_digit_upper((n % 16) as nat)));
    }
}

/// Formats an address as `0x` followed by its upper-case hexadecimal digits.
pub fn format_address(hex_address: u64) -> (r: String)
    ensures
        r@ == seq!['0', 'x'] + hex_upper(hex_address as nat),
{
    let mut out = copy_str("0x");
    proof {
        reveal_strlit("0x");
    }
    push_hex_upper(hex_address, &mut out);
    out
}

} // verus!
