use vstd::prelude::*;
use vstd::std_specs::iter::IteratorSpec;

verus! {

/// Where the scanner stands: in code, in a string, right after a backslash in
/// a string, or in a block comment.
#[derive(Debug, Clone, Copy, PartialEq, Eq, Structural)]
pub enum ScanState {
    Code,
    Text,
    Escape,
    Block,
}

/// What one line keeps, and the state after it. In code a quote opens a
/// string, `//` drops the rest of the line and `/*` opens a block comment; in a
/// string a backslash escapes the next character and a quote closes it; a
/// block comment ends after `*/`. Strings are kept whole; comments are dropped.
pub open spec fn scan_line(state: ScanState, line: Seq<char>) -> (Seq<char>, ScanState)
    decreases line.len(),
{
    if line.len() == 0 {
        (Seq::empty(), state)
    } else {
        let c = line[0];
        let two = line.len() >= 2;
        match state {
            ScanState::Code => {
                if c == '"' {
                    let r = scan_line(ScanState::Text, line.skip(1));
                    (seq![c] + r.0, r.1)
                } else if c == '/' && two && line[1] == '/' {
                    (Seq::empty(), ScanState::Code)
                } else if c == '/' && two && line[1] == '*' {
                    scan_line(ScanState::Block, line.skip(2))
                } else {
                    let r = scan_line(ScanState::Code, line.skip(1));
                    (seq![c] + r.0, r.1)
                }
            },
            ScanState::Text => {
                let next = if c == '\\' {
                    ScanState::Escape
                } else if c == '"' {
                    ScanState::Code
                } else {
                    ScanState::Text
                };
                let r = scan_line(next, line.skip(1));
                (seq![c] + r.0, r.1)
            },
            ScanState::Escape => {
                let r = scan_line(ScanState::Text, line.skip(1));
                (seq![c] + r.0, r.1)
            },
            ScanState::Block => {
                if c == '*' && two && line[1] == '/' {
                    scan_line(ScanState::Code, line.skip(2))
                } else {
                    scan_line(ScanState::Block, line.skip(1))
                }
            },
        }
    }
}

/// The lines of `text` after the partial line `cur`: split at each `\n`, a
/// `\r` right before it dropped, the last line kept where it is not empty.
pub open spec fn lines_after(text: Seq<char>, cur: Seq<char>) -> Seq<Seq<char>>
    decreases text.len(),
{
    if text.len() == 0 {
        if cur.len() == 0 {
            Seq::empty()
        } else {
            seq![cur]
        }
    } else if text[0] == '\n' {
        seq![without_cr(cur)] + lines_after(text.skip(1), Seq::empty())
    } else {
        lines_after(text.skip(1), cur.push(text[0]))
    }
}

/// A line without its final `\r`.
pub open spec fn without_cr(line: Seq<char>) -> Seq<char> {
    if line.len() > 0 && line.last() == '\r' {
        line.drop_last()
    } else {
        line
    }
}

/// The lines of a text.
pub open spec fn text_lines(text: Seq<char>) -> Seq<Seq<char>> {
    lines_after(text, Seq::empty())
}

/// White space, as Unicode defines it.
pub open spec fn is_white(c: char) -> bool {
    ||| c == ' '
    ||| ('\t' <= c && c <= '\r')
    ||| c == '\u{85}'
    ||| c == '\u{a0}'
    ||| c == '\u{1680}'
    ||| ('\u{2000}' <= c && c <= '\u{200a}')
    ||| c == '\u{2028}'
    ||| c == '\u{2029}'
    ||| c == '\u{202f}'
    ||| c == '\u{205f}'
    ||| c == '\u{3000}'
}

/// A line of white space only.
pub open spec fn is_blank(line: Seq<char>) -> bool {
    forall|i: int| 0 <= i < line.len() ==> is_white(#[trigger] line[i])
}

/// What the lines keep, scanned one after another from `state`, blank
/// results left out.
pub open spec fn kept_lines(state: ScanState, lines: Seq<Seq<char>>) -> Seq<Seq<char>>
    decreases lines.len(),
{
    if lines.len() == 0 {
        Seq::empty()
    } else {
        let r = scan_line(state, lines[0]);
        let rest = kept_lines(r.1, lines.skip(1));
        if is_blank(r.0) {
            rest
        } else {
            seq![r.0] + rest
        }
    }
}

/// Lines joined with `\n` between them.
pub open spec fn joined(lines: Seq<Seq<char>>) -> Seq<char>
    decreases lines.len(),
{
    if lines.len() == 0 {
        Seq::empty()
    } else if lines.len() == 1 {
        lines[0]
    } else {
        joined(lines.drop_last()) + seq!['\n'] + lines.last()
    }
}

/// A text without its comments and without the lines left blank.
pub open spec fn stripped(text: Seq<char>) -> Seq<char> {
    joined(kept_lines(ScanState::Code, text_lines(text)))
}

fn is_white_char(c: char) -> (r: bool)
    ensures
        r == is_white(c),
{
    c == ' ' || ('\t' <= c && c <= '\r') || c == '\u{85}' || c == '\u{a0}' || c == '\u{1680}'
        || ('\u{2000}' <= c && c <= '\u{200a}') || c == '\u{2028}' || c == '\u{2029}' || c
        == '\u{202f}' || c == '\u{205f}' || c == '\u{3000}'
}

fn blank(line: &Vec<char>) -> (r: bool)
    ensures
        r == is_blank(line@),
{
    let mut i: usize = 0;
    while i < line.len()
        invariant
            i <= line@.len(),
            forall|k: int| 0 <= k < i ==> is_white(#[trigger] line@[k]),
        decreases line@.len() - i,
    {
        if !is_white_char(line[i]) {
            return false;
        }
        i = i + 1;
    }
    true
}

/// Scan one line from `state`: what it keeps, and the state after it.
fn scan(state: ScanState, line: &Vec<char>) -> (r: (Vec<char>, ScanState))
    ensures
        (r.0@, r.1) == scan_line(state, line@),
{
    let mut out: Vec<char> = Vec::new();
    let mut st = state;
    let mut i: usize = 0;
    let n = line.len();
    assert(line@.skip(0) =~= line@);
    assert(out@ + scan_line(st, line@).0 =~= scan_line(st, line@).0);
    while i < n
        invariant
            i <= n,
            n == line@.len(),
            scan_line(state, line@) == (out@ + scan_line(st, line@.skip(i as int)).0, scan_line(
                st,
                line@.skip(i as int),
            ).1),
        decreases n - i,
    {
        let ghost rest = line@.skip(i as int);
        let c = line[i];
        let two = i + 1 < n;
        proof {
            assert(rest[0] == c);
            if two {
                assert(rest[1] == line@[i + 1]);
            }
            assert(rest.skip(1) =~= line@.skip(i + 1));
            if two {
                assert(rest.skip(2) =~= line@.skip(i + 2));
            }
        }
        let ghost before = out@;
        match st {
            ScanState::Code => {
                if c == '"' {
                    out.push(c);
                    st = ScanState::Text;
                    i = i + 1;
                } else if c == '/' && two && line[i + 1] == '/' {
                    proof {
                        assert(line@.skip(n as int) =~= Seq::<char>::empty());
                    }
                    i = n;
                } else if c == '/' && two && line[i + 1] == '*' {
                    st = ScanState::Block;
                    i = i + 2;
                } else {
                    out.push(c);
                    i = i + 1;
                }
            },
            ScanState::Text => {
                out.push(c);
                if c == '\\' {
                    st = ScanState::Escape;
                } else if c == '"' {
                    st = ScanState::Code;
                }
                i = i + 1;
            },
            ScanState::Escape => {
                out.push(c);
                st = ScanState::Text;
                i = i + 1;
            },
            ScanState::Block => {
                if c == '*' && two && line[i + 1] == '/' {
                    st = ScanState::Code;
                    i = i + 2;
                } else {
                    i = i + 1;
                }
            },
        }
        proof {
            assert(before + seq![c] + scan_line(st, line@.skip(i as int)).0 =~= before + (seq![c]
                + scan_line(st, line@.skip(i as int)).0));
        }
    }
    (out, st)
}

/// Relies on `String::from_iter` over `&char`: the string of exactly these
/// characters, in order.
#[verifier::external_body]
fn string_of(chars: &Vec<char>) -> (r: String)
    ensures
        r@ == chars@,
{
    String::from_iter(chars.iter())
}

/// The characters of a string, in order.
fn chars_of(s: &str) -> (r: Vec<char>)
    ensures
        r@ == s@,
{
    broadcast use vstd::string::axiom_spec_iter, vstd::string::next_postcondition;

    let mut v: Vec<char> = Vec::new();
    let mut it = s.chars();
    loop
        invariant
            v@ + it.remaining() == s@,
            it.obeys_prophetic_iter_laws(),
        ensures
            v@ == s@,
        decreases s@.len() - v@.len(),
    {
        let ghost before = it.remaining();
        match it.next() {
            Some(c) => {
                proof {
                    assert(v@.push(c) + it.remaining() =~= v@ + before);
                }
                v.push(c);
            },
            None => {
                assert(v@ + it.remaining() =~= v@);
                break;
            },
        }
    }
    v
}

fn append_chars(out: &mut Vec<char>, s: &Vec<char>)
    ensures
        final(out)@ == old(out)@ + s@,
{
    let mut i: usize = 0;
    while i < s.len()
        invariant
            i <= s@.len(),
            out@ == old(out)@ + s@.take(i as int),
        decreases s@.len() - i,
    {
        out.push(s[i]);
        proof {
            assert(s@.take(i + 1) =~= s@.take(i as int).push(s@[i as int]));
        }
        i = i + 1;
    }
    assert(s@.take(i as int) =~= s@);
}

/// Strip `//` line comments and `/* */` block comments from a configuration
/// text, leaving strings whole, then drop the lines left blank.
pub fn strip_comments(json: &str) -> (r: String)
    ensures
        r@ == stripped(json@),
{
    let text = chars_of(json);
    let n = text.len();
    // split into lines
    let mut lines: Vec<Vec<char>> = Vec::new();
    let ghost mut gl: Seq<Seq<char>> = Seq::empty();
    let mut cur: Vec<char> = Vec::new();
    let mut i: usize = 0;
    assert(text@.skip(0) =~= text@);
    assert(gl + lines_after(text@, cur@) =~= lines_after(text@, Seq::empty()));
    while i < n
        invariant
            i <= n,
            n == text@.len(),
            gl + lines_after(text@.skip(i as int), cur@) == text_lines(text@),
            gl.len() == lines@.len(),
            forall|k: int| 0 <= k < gl.len() ==> #[trigger] lines@[k]@ == gl[k],
        decreases n - i,
    {
        let c = text[i];
        proof {
            assert(text@.skip(i as int)[0] == c);
            assert(text@.skip(i as int).skip(1) =~= text@.skip(i + 1));
        }
        if c == '\n' {
            let mut line = cur;
            if line.len() > 0 && line[line.len() - 1] == '\r' {
                line.pop();
            }
            proof {
                assert(line@ == without_cr(cur@));
                assert(gl.push(line@) + lines_after(text@.skip(i + 1), Seq::empty()) =~= gl + (
                seq![without_cr(cur@)] + lines_after(text@.skip(i + 1), Seq::empty())));
                gl = gl.push(line@);
            }
            lines.push(line);
            cur = Vec::new();
        } else {
            cur.push(c);
        }
        i = i + 1;
    }
    assert(text@.skip(n as int) =~= Seq::<char>::empty());
    if cur.len() > 0 {
        proof {
            gl = gl.push(cur@);
        }
        lines.push(cur);
    } else {
        assert(gl + Seq::<Seq<char>>::empty() =~= gl);
    }
    // scan the lines
    let mut kept: Vec<Vec<char>> = Vec::new();
    let ghost mut gk: Seq<Seq<char>> = Seq::empty();
    let mut st = ScanState::Code;
    let mut m: usize = 0;
    assert(gl.skip(0) =~= gl);
    assert(gk + kept_lines(st, gl) =~= kept_lines(ScanState::Code, gl));
    while m < lines.len()
        invariant
            m <= lines@.len(),
            gl.len() == lines@.len(),
            gl == text_lines(text@),
            forall|k: int| 0 <= k < gl.len() ==> #[trigger] lines@[k]@ == gl[k],
            gk + kept_lines(st, gl.skip(m as int)) == kept_lines(ScanState::Code, gl),
            gk.len() == kept@.len(),
            forall|k: int| 0 <= k < gk.len() ==> #[trigger] kept@[k]@ == gk[k],
        decreases lines@.len() - m,
    {
        let (content, next) = scan(st, &lines[m]);
        proof {
            assert(gl.skip(m as int)[0] == gl[m as int]);
            assert(gl.skip(m as int).skip(1) =~= gl.skip(m + 1));
        }
        if !blank(&content) {
            proof {
                assert(gk.push(content@) + kept_lines(next, gl.skip(m + 1)) =~= gk + (seq![
                    content@,
                ] + kept_lines(next, gl.skip(m + 1))));
                gk = gk.push(content@);
            }
            kept.push(content);
        }
        st = next;
        m = m + 1;
    }
    assert(gl.skip(m as int) =~= Seq::<Seq<char>>::empty());
    assert(gk + Seq::<Seq<char>>::empty() =~= gk);
    // join them
    let mut out: Vec<char> = Vec::new();
    let mut k: usize = 0;
    assert(gk.take(0) =~= Seq::<Seq<char>>::empty());
    while k < kept.len()
        invariant
            k <= kept@.len(),
            gk.len() == kept@.len(),
            forall|j: int| 0 <= j < gk.len() ==> #[trigger] kept@[j]@ == gk[j],
            out@ == joined(gk.take(k as int)),
        decreases kept@.len() - k,
    {
        proof {
            assert(gk.take(k + 1).drop_last() =~= gk.take(k as int));
            assert(gk.take(k + 1).last() == gk[k as int]);
        }
        if k > 0 {
            out.push('\n');
        } else {
            assert(out@ =~= Seq::<char>::empty());
        }
        append_chars(&mut out, &kept[k]);
        k = k + 1;
    }
    assert(gk.take(k as int) =~= gk);
    string_of(&out)
}

/// Code without quotes or slashes passes the scanner unchanged.
pub proof fn lemma_plain_code_kept(code: Seq<char>, tail: Seq<char>)
    requires
        forall|i: int| 0 <= i < code.len() ==> #[trigger] code[i] != '"' && code[i] != '/',
    ensures
        scan_line(ScanState::Code, code + tail) == (
            code + scan_line(ScanState::Code, tail).0,
            scan_line(ScanState::Code, tail).1,
        ),
    decreases code.len(),
{
    if code.len() > 0 {
        let rest = code.skip(1);
        assert((code + tail).skip(1) =~= rest + tail);
        assert((code + tail)[0] == code[0]);
        lemma_plain_code_kept(rest, tail);
        assert(seq![code[0]] + (rest + scan_line(ScanState::Code, tail).0) =~= code
            + scan_line(ScanState::Code, tail).0);
    } else {
        assert(code + tail =~= tail);
        assert(code + scan_line(ScanState::Code, tail).0 =~= scan_line(ScanState::Code, tail).0);
    }
}

/// The body of a string without quotes or backslashes is kept as it is,
/// slashes included.
pub proof fn lemma_string_body_kept(body: Seq<char>, tail: Seq<char>)
    requires
        forall|i: int| 0 <= i < body.len() ==> #[trigger] body[i] != '"' && body[i] != '\\',
    ensures
        scan_line(ScanState::Text, body + tail) == (
            body + scan_line(ScanState::Text, tail).0,
            scan_line(ScanState::Text, tail).1,
        ),
    decreases body.len(),
{
    if body.len() > 0 {
        let rest = body.skip(1);
        assert((body + tail).skip(1) =~= rest + tail);
        assert((body + tail)[0] == body[0]);
        lemma_string_body_kept(rest, tail);
        assert(seq![body[0]] + (rest + scan_line(ScanState::Text, tail).0) =~= body
            + scan_line(ScanState::Text, tail).0);
    } else {
        assert(body + tail =~= tail);
        assert(body + scan_line(ScanState::Text, tail).0 =~= scan_line(ScanState::Text, tail).0);
    }
}

/// A string in code is kept verbatim, even where it holds `//` or `/*`, and
/// the scanner is back in code after it.
pub proof fn lemma_string_kept(body: Seq<char>, rest: Seq<char>)
    requires
        forall|i: int| 0 <= i < body.len() ==> #[trigger] body[i] != '"' && body[i] != '\\',
    ensures
        scan_line(ScanState::Code, seq!['"'] + body + seq!['"'] + rest) == (
            seq!['"'] + body + seq!['"'] + scan_line(ScanState::Code, rest).0,
            scan_line(ScanState::Code, rest).1,
        ),
{
    let line = seq!['"'] + body + seq!['"'] + rest;
    let after = seq!['"'] + rest;
    assert(line.skip(1) =~= body + after);
    assert(line[0] == '"');
    lemma_string_body_kept(body, after);
    assert(after[0] == '"');
    assert(after.skip(1) =~= rest);
    assert(seq!['"'] + (body + (seq!['"'] + scan_line(ScanState::Code, rest).0)) =~= seq!['"']
        + body + seq!['"'] + scan_line(ScanState::Code, rest).0);
}

/// A `//` comment after plain code is dropped with the rest of the line.
pub proof fn lemma_line_comment_dropped(code: Seq<char>, comment: Seq<char>)
    requires
        forall|i: int| 0 <= i < code.len() ==> #[trigger] code[i] != '"' && code[i] != '/',
    ensures
        scan_line(ScanState::Code, code + seq!['/', '/'] + comment) == (code, ScanState::Code),
{
    let tail = seq!['/', '/'] + comment;
    assert(code + seq!['/', '/'] + comment =~= code + tail);
    lemma_plain_code_kept(code, tail);
    assert(tail[0] == '/' && tail[1] == '/');
    assert(code + Seq::<char>::empty() =~= code);
}

/// A `/* */` comment after plain code is dropped, and the line goes on after it.
pub proof fn lemma_block_comment_dropped(code: Seq<char>, comment: Seq<char>, rest: Seq<char>)
    requires
        forall|i: int| 0 <= i < code.len() ==> #[trigger] code[i] != '"' && code[i] != '/',
        forall|i: int| 0 <= i < comment.len() ==> #[trigger] comment[i] != '*',
    ensures
        scan_line(ScanState::Code, code + seq!['/', '*'] + comment + seq!['*', '/'] + rest) == (
            code + scan_line(ScanState::Code, rest).0,
            scan_line(ScanState::Code, rest).1,
        ),
{
    let tail = seq!['/', '*'] + comment + seq!['*', '/'] + rest;
    assert(code + seq!['/', '*'] + comment + seq!['*', '/'] + rest =~= code + tail);
    lemma_plain_code_kept(code, tail);
    assert(tail[0] == '/' && tail[1] == '*');
    assert(tail.skip(2) =~= comment + (seq!['*', '/'] + rest));
    lemma_block_skipped(comment, seq!['*', '/'] + rest);
    let end = seq!['*', '/'] + rest;
    assert(end[0] == '*' && end[1] == '/');
    assert(end.skip(2) =~= rest);
}

/// Inside a block comment, text without `*` is skipped.
proof fn lemma_block_skipped(comment: Seq<char>, tail: Seq<char>)
    requires
        forall|i: int| 0 <= i < comment.len() ==> #[trigger] comment[i] != '*',
    ensures
        scan_line(ScanState::Block, comment + tail) == scan_line(ScanState::Block, tail),
    decreases comment.len(),
{
    if comment.len() > 0 {
        assert((comment + tail).skip(1) =~= comment.skip(1) + tail);
        assert((comment + tail)[0] == comment[0]);
        lemma_block_skipped(comment.skip(1), tail);
    } else {
        assert(comment + tail =~= tail);
    }
}

proof fn lemma_lines_without_newline(text: Seq<char>, cur: Seq<char>)
    requires
        forall|i: int| 0 <= i < text.len() ==> #[trigger] text[i] != '\n',
    ensures
        lines_after(text, cur) == if cur.len() + text.len() == 0 {
            Seq::<Seq<char>>::empty()
        } else {
            seq![cur + text]
        },
    decreases text.len(),
{
    if text.len() > 0 {
        assert(text[0] != '\n');
        lemma_lines_without_newline(text.skip(1), cur.push(text[0]));
        assert(cur.push(text[0]) + text.skip(1) =~= cur + text);
    } else {
        assert(cur + text =~= cur);
    }
}

/// A string on a one-line text is kept verbatim by the whole stripping, even
/// where it holds `//` or `/*`; what follows it on the line is scanned as code.
pub proof fn lemma_text_keeps_string(body: Seq<char>, rest: Seq<char>)
    requires
        forall|i: int| 0 <= i < body.len() ==> #[trigger] body[i] != '"' && body[i] != '\\'
            && body[i] != '\n',
        forall|i: int| 0 <= i < rest.len() ==> #[trigger] rest[i] != '\n',
    ensures
        stripped(seq!['"'] + body + seq!['"'] + rest) == seq!['"'] + body + seq!['"']
            + scan_line(ScanState::Code, rest).0,
{
    let line = seq!['"'] + body + seq!['"'] + rest;
    assert forall|i: int| 0 <= i < line.len() implies #[trigger] line[i] != '\n' by {
        if i == 0 || i == body.len() + 1 {
        } else if i <= body.len() {
            assert(line[i] == body[i - 1]);
        } else {
            assert(line[i] == rest[i - body.len() - 2]);
        }
    }
    lemma_lines_without_newline(line, Seq::empty());
    assert(Seq::<char>::empty() + line =~= line);
    lemma_string_kept(body, rest);
    let kept = scan_line(ScanState::Code, line);
    assert(kept.0[0] == '"');
    assert(!is_blank(kept.0));
    let lines = seq![line];
    assert(lines.skip(1) =~= Seq::<Seq<char>>::empty());
    assert(kept_lines(ScanState::Code, lines) == seq![kept.0] + kept_lines(
        kept.1,
        Seq::<Seq<char>>::empty(),
    ));
    assert(seq![kept.0] + Seq::<Seq<char>>::empty() =~= seq![kept.0]);
}

} // verus!
