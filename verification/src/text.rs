use vstd::prelude::*;

use crate::json::{spec_digit, strs_view};

verus! {

broadcast use crate::json::group_json_view;

// ---------------------------------------------------------------------------
// The three text passes of the decoder, as functions on character sequences:
// stripping one layer of surrounding quotes, collapsing one layer of escaped
// quotes, and deciding whether a text could begin a JSON value at all.
// ---------------------------------------------------------------------------

/// The whitespace JSON admits between tokens.
pub open spec fn spec_ws(c: char) -> bool {
    c == ' ' || c == '\t' || c == '\n' || c == '\r'
}

/// Characters that can open a JSON value: an object, array, string, number,
/// or one of the literals `true`, `false`, `null`.
pub open spec fn value_start(c: char) -> bool {
    ||| c == '{'
    ||| c == '['
    ||| c == '"'
    ||| c == '-'
    ||| spec_digit(c)
    ||| c == 't'
    ||| c == 'f'
    ||| c == 'n'
}

/// `s` with its leading whitespace removed.
pub open spec fn skip_ws(s: Seq<char>) -> Seq<char>
    decreases s.len(),
{
    if s.len() > 0 && spec_ws(s[0]) {
        skip_ws(s.subrange(1, s.len() as int))
    } else {
        s
    }
}

/// A text that is not a value at all: it shows some visible character, and
/// that character cannot open a JSON value. Such a text is kept as a plain
/// string by the decoder; anything else must go through the parser.
pub open spec fn plain_text(s: Seq<char>) -> bool {
    skip_ws(s).len() > 0 && !value_start(skip_ws(s)[0])
}

/// One leading and one trailing `"` removed, where present.
pub open spec fn strip_quotes(s: Seq<char>) -> Seq<char> {
    let t = if s.len() >= 1 && s[0] == '"' {
        s.subrange(1, s.len() as int)
    } else {
        s
    };
    if t.len() >= 1 && t[t.len() - 1] == '"' {
        t.subrange(0, t.len() - 1)
    } else {
        t
    }
}

/// A run of `n` backslashes.
pub open spec fn backslashes(n: nat) -> Seq<char> {
    Seq::new(n, |i: int| '\\')
}

/// One step of escape collapsing: `pending` backslashes have been read and
/// not yet written out. A quote after an odd run of backslashes was escaped:
/// the run is halved (rounding down) and the quote becomes bare. A quote
/// after an even run was not escaped; it and the run stay. Backslashes not
/// followed by a quote stay.
pub open spec fn unescape_from(s: Seq<char>, pending: nat) -> Seq<char>
    decreases s.len(),
{
    if s.len() == 0 {
        backslashes(pending)
    } else if s[0] == '\\' {
        unescape_from(s.subrange(1, s.len() as int), pending + 1)
    } else if s[0] == '"' {
        let kept = if pending % 2 == 1 {
            backslashes((pending - 1) as nat / 2)
        } else {
            backslashes(pending)
        };
        kept.push('"') + unescape_from(s.subrange(1, s.len() as int), 0)
    } else {
        backslashes(pending).push(s[0]) + unescape_from(s.subrange(1, s.len() as int), 0)
    }
}

/// Escaped quotes collapsed by one level: a run of `2n+1` backslashes
/// followed by `"` becomes `n` backslashes and a bare `"`.
pub open spec fn unescape(s: Seq<char>) -> Seq<char> {
    unescape_from(s, 0)
}

/// A character that the compact JSON serializer writes as itself inside a
/// string literal, with no escape.
pub open spec fn plain_char(c: char) -> bool {
    c != '"' && c != '\\' && c >= ' '
}

pub open spec fn plain_seq(s: Seq<char>) -> bool {
    forall|i: int| 0 <= i < s.len() ==> plain_char(#[trigger] s[i])
}



fn is_ws_char(c: char) -> (r: bool)
    ensures
        r == spec_ws(c),
{
    c == ' ' || c == '\t' || c == '\n' || c == '\r'
}

fn is_value_start(c: char) -> (r: bool)
    ensures
        r == value_start(c),
{
    c == '{' || c == '[' || c == '"' || c == '-' || ('0' <= c && c <= '9') || c == 't' || c == 'f'
        || c == 'n'
}

/// Index of the first character that is not JSON whitespace.
fn first_visible(s: &str) -> (r: usize)
    ensures
        r <= s@.len(),
        skip_ws(s@) == s@.subrange(r as int, s@.len() as int),
{
    let n = s.unicode_len();
    let mut i: usize = 0;
    proof {
        assert(s@.subrange(0, n as int) =~= s@);
    }
    while i < n
        invariant
            i <= n,
            n == s@.len(),
            skip_ws(s@) == skip_ws(s@.subrange(i as int, n as int)),
        decreases n - i,
    {
        let c = s.get_char(i);
        if !is_ws_char(c) {
            return i;
        }
        proof {
            assert(s@.subrange(i as int, n as int).subrange(1, (n - i) as int) =~= s@.subrange(
                i + 1,
                n as int,
            ));
        }
        i += 1;
    }
    proof {
        assert(s@.subrange(n as int, n as int) =~= Seq::<char>::empty());
    }
    i
}

/// Whether the text is kept as a plain string by the decoder.
pub fn is_plain_text(s: &str) -> (r: bool)
    ensures
        r == plain_text(s@),
{
    let n = s.unicode_len();
    let i = first_visible(s);
    if i == n {
        false
    } else {
        let c = s.get_char(i);
        !is_value_start(c)
    }
}

/// One leading and one trailing quote removed, as [`strip_quotes`] says.
pub fn strip_quotes_exec(s: &str) -> (r: String)
    ensures
        r@ == strip_quotes(s@),
{
    let n = s.unicode_len();
    let start: usize = if n >= 1 && s.get_char(0) == '"' {
        1
    } else {
        0
    };
    let end: usize = if n > start && s.get_char(n - 1) == '"' {
        n - 1
    } else {
        n
    };
    let sub = s.substring_char(start, end);
    proof {
        assert(strip_quotes(s@) =~= s@.subrange(start as int, end as int));
    }
    sub.to_owned()
}

/// Appends `n` backslashes.
fn push_backslashes(out: &mut String, n: usize)
    ensures
        final(out)@ == old(out)@ + backslashes(n as nat),
{
    let mut k: usize = 0;
    proof {
        assert(out@ =~= old(out)@ + backslashes(0));
    }
    while k < n
        invariant
            k <= n,
            out@ == old(out)@ + backslashes(k as nat),
        decreases n - k,
    {
        out.push('\\');
        k += 1;
        proof {
            assert(old(out)@ + backslashes(k as nat) =~= (old(out)@ + backslashes(
                (k - 1) as nat,
            )).push('\\'));
        }
    }
}

/// Escaped quotes collapsed by one level, as [`unescape`] says.
pub fn unescape_exec(s: &str) -> (r: String)
    ensures
        r@ == unescape(s@),
{
    let n = s.unicode_len();
    let mut out = String::new();
    let mut pending: usize = 0;
    let mut i: usize = 0;
    proof {
        assert(s@.subrange(0, n as int) =~= s@);
        assert(out@ + unescape_from(s@, 0) =~= unescape_from(s@, 0));
    }
    while i < n
        invariant
            i <= n,
            n == s@.len(),
            pending <= i,
            unescape(s@) == out@ + unescape_from(
                s@.subrange(i as int, n as int),
                pending as nat,
            ),
        decreases n - i,
    {
        let c = s.get_char(i);
        let ghost rest = s@.subrange(i as int, n as int);
        let ghost tail = s@.subrange(i + 1, n as int);
        let ghost out0 = out@;
        proof {
            assert(rest.subrange(1, rest.len() as int) =~= tail);
        }
        if c == '\\' {
            pending = pending + 1;
        } else if c == '"' {
            let keep: usize = if pending % 2 == 1 {
                (pending - 1) / 2
            } else {
                pending
            };
            push_backslashes(&mut out, keep);
            out.push('"');
            proof {
                let kept = backslashes(keep as nat);
                assert(unescape_from(rest, pending as nat) == kept.push('"') + unescape_from(
                    tail,
                    0,
                ));
                assert(out@ =~= out0 + kept.push('"'));
                assert(out0 + (kept.push('"') + unescape_from(tail, 0)) =~= (out0 + kept.push('"'))
                    + unescape_from(tail, 0));
            }
            pending = 0;
        } else {
            push_backslashes(&mut out, pending);
            out.push(c);
            proof {
                let kept = backslashes(pending as nat);
                assert(unescape_from(rest, pending as nat) == kept.push(c) + unescape_from(
                    tail,
                    0,
                ));
                assert(out@ =~= out0 + kept.push(c));
                assert(out0 + (kept.push(c) + unescape_from(tail, 0)) =~= (out0 + kept.push(c))
                    + unescape_from(tail, 0));
            }
            pending = 0;
        }
        i += 1;
    }
    push_backslashes(&mut out, pending);
    proof {
        assert(s@.subrange(n as int, n as int) =~= Seq::<char>::empty());
    }
    out
}

/// How many `.` characters the text holds; the depth measure of a key path.
pub open spec fn dot_count(s: Seq<char>) -> nat
    decreases s.len(),
{
    if s.len() == 0 {
        0
    } else {
        (if s[0] == '.' {
            1nat
        } else {
            0nat
        }) + dot_count(s.subrange(1, s.len() as int))
    }
}

/// Splitting on `.` with `cur` the segment read so far: every maximal (and
/// possibly empty) run of non-dot characters is a segment.
pub open spec fn split_from(s: Seq<char>, cur: Seq<char>) -> Seq<Seq<char>>
    decreases s.len(),
{
    if s.len() == 0 {
        seq![cur]
    } else if s[0] == '.' {
        seq![cur] + split_from(s.subrange(1, s.len() as int), Seq::empty())
    } else {
        split_from(s.subrange(1, s.len() as int), cur.push(s[0]))
    }
}

/// The segments of a dotted key path. A path with no dot is one segment;
/// consecutive dots give empty segments, which no object key matches.
pub open spec fn split_dots(s: Seq<char>) -> Seq<Seq<char>> {
    split_from(s, Seq::empty())
}

/// Counts the `.` characters of the text.
pub fn dot_count_exec(s: &str) -> (r: usize)
    ensures
        r as nat == dot_count(s@),
{
    let n = s.unicode_len();
    let mut count: usize = 0;
    let mut i: usize = 0;
    proof {
        assert(s@.subrange(0, n as int) =~= s@);
    }
    while i < n
        invariant
            i <= n,
            n == s@.len(),
            count <= i,
            dot_count(s@) == count + dot_count(s@.subrange(i as int, n as int)),
        decreases n - i,
    {
        let c = s.get_char(i);
        proof {
            assert(s@.subrange(i as int, n as int).subrange(1, (n - i) as int) =~= s@.subrange(
                i + 1,
                n as int,
            ));
        }
        if c == '.' {
            count = count + 1;
        }
        i += 1;
    }
    proof {
        assert(s@.subrange(n as int, n as int) =~= Seq::<char>::empty());
    }
    count
}

/// Splits the text into its dot-separated segments.
pub fn split_dots_exec(s: &str) -> (r: Vec<String>)
    ensures
        strs_view(r@) == split_dots(s@),
{
    let n = s.unicode_len();
    let mut out: Vec<String> = Vec::new();
    let mut cur = String::new();
    let mut i: usize = 0;
    proof {
        assert(s@.subrange(0, n as int) =~= s@);
        assert(strs_view(out@) + split_from(s@, cur@) =~= split_from(s@, cur@));
    }
    while i < n
        invariant
            i <= n,
            n == s@.len(),
            split_dots(s@) == strs_view(out@) + split_from(
                s@.subrange(i as int, n as int),
                cur@,
            ),
        decreases n - i,
    {
        let c = s.get_char(i);
        let ghost rest = s@.subrange(i as int, n as int);
        let ghost out0 = out@;
        let ghost cur0 = cur@;
        proof {
            assert(rest.subrange(1, rest.len() as int) =~= s@.subrange(i + 1, n as int));
        }
        if c == '.' {
            out.push(cur);
            cur = String::new();
            proof {
                assert(strs_view(out@) =~= strs_view(out0).push(cur0));
                assert(strs_view(out0) + (seq![cur0] + split_from(
                    s@.subrange(i + 1, n as int),
                    Seq::empty(),
                )) =~= strs_view(out0).push(cur0) + split_from(
                    s@.subrange(i + 1, n as int),
                    Seq::empty(),
                ));
            }
        } else {
            cur.push(c);
        }
        i += 1;
    }
    proof {
        assert(s@.subrange(n as int, n as int) =~= Seq::<char>::empty());
    }
    let ghost out0 = out@;
    let ghost cur0 = cur@;
    out.push(cur);
    proof {
        assert(strs_view(out@) =~= strs_view(out0).push(cur0));
        assert(strs_view(out0) + seq![cur0] =~= strs_view(out0).push(cur0));
    }
    out
}

/// Stripping quotes does not change a text with no quote at either end.
pub proof fn lemma_strip_quotes_id(s: Seq<char>)
    requires
        s.len() > 0 ==> (s[0] != '"' && s[s.len() - 1] != '"'),
    ensures
        strip_quotes(s) == s,
{
}

/// Stripping quotes undoes exactly one layer of wrapping quotes.
pub proof fn lemma_strip_quotes_wrapped(content: Seq<char>)
    ensures
        strip_quotes(seq!['"'] + content + seq!['"']) == content,
{
    let s = seq!['"'] + content + seq!['"'];
    assert(s[0] == '"');
    let t = s.subrange(1, s.len() as int);
    assert(t[t.len() - 1] == '"');
    assert(t.subrange(0, t.len() - 1) =~= content);
}

/// Collapsing escapes does not change a text with no backslashes.
pub proof fn lemma_unescape_plain(s: Seq<char>)
    requires
        forall|i: int| 0 <= i < s.len() ==> s[i] != '\\',
    ensures
        unescape(s) == s,
    decreases s.len(),
{
    lemma_unescape_from_no_backslash(s);
}

proof fn lemma_unescape_from_no_backslash(s: Seq<char>)
    requires
        forall|i: int| 0 <= i < s.len() ==> s[i] != '\\',
    ensures
        unescape_from(s, 0) == s,
    decreases s.len(),
{
    if s.len() == 0 {
        assert(unescape_from(s, 0) =~= s);
    } else {
        let rest = s.subrange(1, s.len() as int);
        lemma_unescape_from_no_backslash(rest);
        assert(backslashes(0).push(s[0]) =~= seq![s[0]]);
        assert(seq![s[0]] + rest =~= s);
    }
}

} // verus!
