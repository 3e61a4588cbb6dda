//! Greedy word wrapping for the rendered summary paragraphs.

use vstd::prelude::*;
use crate::text::{chars_of, push_chars, split_ws, string_from_chars, tokens, views_of};

verus! {

/// Greedy wrapping: words are appended to the current line while it stays
/// within the width (counting one joining space); a word that does not fit
/// starts a new line.  A word longer than the width stands on its own line.
pub open spec fn wrap_lines(ws: Seq<Seq<char>>, cur: Seq<char>, width: int) -> Seq<Seq<char>>
    decreases ws.len(),
{
    if ws.len() == 0 {
        if cur.len() == 0 {
            Seq::empty()
        } else {
            seq![cur]
        }
    } else {
        let w = ws[0];
        if cur.len() == 0 {
            wrap_lines(ws.drop_first(), w, width)
        } else if cur.len() + w.len() + 1 <= width {
            wrap_lines(ws.drop_first(), cur + seq![' '] + w, width)
        } else {
            seq![cur] + wrap_lines(ws.drop_first(), w, width)
        }
    }
}

/// The wrapped lines of a text: its whitespace tokens, wrapped greedily.
pub open spec fn wrap_spec(text: Seq<char>, width: int) -> Seq<Seq<char>> {
    wrap_lines(tokens(text), Seq::empty(), width)
}

/// Wraps `text` into lines of at most `width` characters where possible.
pub fn textwrap_wrap(text: &str, width: usize) -> (r: Vec<String>)
    ensures
        r.deep_view() == wrap_spec(text@, width as int),
{
    let cs = chars_of(text);
    let ws = split_ws(&cs);
    let ghost toks = tokens(cs@);
    let n = ws.len();
    proof {
        assert(toks.subrange(0, n as int) =~= toks);
    }
    let mut out: Vec<String> = Vec::new();
    let mut cur: Vec<char> = Vec::new();
    let mut i: usize = 0;
    while i < n
        invariant
            i <= n,
            n == ws@.len(),
            views_of(ws@) == toks,
            wrap_spec(text@, width as int) =~~= out.deep_view() + wrap_lines(
                toks.subrange(i as int, n as int),
                cur@,
                width as int,
            ),
        decreases n - i,
    {
        proof {
            assert(toks[i as int] == ws@[i as int]@);
            assert(toks.subrange(i as int, n as int).drop_first() =~= toks.subrange(
                i + 1 as int,
                n as int,
            ));
            assert(toks.subrange(i as int, n as int)[0] == toks[i as int]);
        }
        let word = &ws[i];
        if cur.len() == 0 {
            let mut fresh: Vec<char> = Vec::new();
            push_chars(&mut fresh, word);
            cur = fresh;
        } else if cur.len() < width && word.len() <= width - cur.len() - 1 {
            let ghost prev = cur@;
            cur.push(' ');
            push_chars(&mut cur, word);
            proof {
                assert(cur@ =~= prev + seq![' '] + toks[i as int]);
            }
        } else {
            let line = string_from_chars(&cur);
            let ghost before = out.deep_view();
            out.push(line);
            proof {
                assert(out.deep_view() =~~= before.push(cur@));
            }
            let mut fresh: Vec<char> = Vec::new();
            push_chars(&mut fresh, word);
            cur = fresh;
        }
        i += 1;
    }
    proof {
        assert(toks.subrange(n as int, n as int).len() == 0);
    }
    if cur.len() > 0 {
        let line = string_from_chars(&cur);
        let ghost before = out.deep_view();
        out.push(line);
        proof {
            assert(out.deep_view() =~~= before.push(cur@));
        }
    }
    out
}

/// Wraps a paragraph for display.
pub fn wrap(text: &str, width: usize) -> (r: Vec<String>)
    ensures
        r.deep_view() == wrap_spec(text@, width as int),
{
    textwrap_wrap(text, width)
}

} // verus!
