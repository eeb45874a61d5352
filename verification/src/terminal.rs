use vstd::prelude::*;
use vstd::utf8::{
    encode_utf8, is_char_boundary, is_continuation_byte, length_of_first_scalar, pop_first_scalar,
    valid_utf8,
};


verus! {

broadcast use {vstd::utf8::encode_utf8_valid_utf8, vstd::string::group_string_axioms};

/// The most bytes the terminal log keeps.
pub const MAX_TERMINAL_CHARS: usize = 200_000;

/// The first character boundary of `b` at or after `i` (or the end of `b`).
pub open spec fn next_boundary(b: Seq<u8>, i: int) -> int
    decreases b.len() - i,
{
    if i >= b.len() || is_char_boundary(b, i) {
        i
    } else {
        next_boundary(b, i + 1)
    }
}

/// The first `\n` of `b` at or after `i` (or the end of `b`).
pub open spec fn newline_from(b: Seq<u8>, i: int) -> int
    decreases b.len() - i,
{
    if i >= b.len() {
        b.len() as int
    } else if b[i] == 10 {
        i
    } else {
        newline_from(b, i + 1)
    }
}

/// Where the log `b` is cut when it is over the limit: at the first character
/// boundary from which at most the limit is left, and then past the next line
/// break, when there is one, so that the log starts with a whole line.
pub open spec fn terminal_cut(b: Seq<u8>) -> int {
    if b.len() <= MAX_TERMINAL_CHARS {
        0
    } else {
        let c = next_boundary(b, b.len() - MAX_TERMINAL_CHARS);
        if c < b.len() && newline_from(b, c) < b.len() {
            newline_from(b, c) + 1
        } else {
            c
        }
    }
}

/// The log `s` once trimmed: the bytes from the cut on.
pub open spec fn trimmed_log_bytes(s: Seq<char>) -> Seq<u8> {
    let b = encode_utf8(s);
    b.skip(terminal_cut(b))
}

proof fn lemma_next_boundary(b: Seq<u8>, i: int)
    requires
        0 <= i,
    ensures
        i <= next_boundary(b, i),
        i <= b.len() ==> next_boundary(b, i) <= b.len(),
        next_boundary(b, i) >= b.len() || is_char_boundary(b, next_boundary(b, i)),
    decreases b.len() - i,
{
    if !(i >= b.len() || is_char_boundary(b, i)) {
        lemma_next_boundary(b, i + 1);
    }
}

proof fn lemma_newline_from(b: Seq<u8>, i: int)
    requires
        0 <= i <= b.len(),
    ensures
        i <= newline_from(b, i) <= b.len(),
        newline_from(b, i) < b.len() ==> b[newline_from(b, i)] == 10,
    decreases b.len() - i,
{
    if i < b.len() && b[i] != 10 {
        lemma_newline_from(b, i + 1);
    }
}

/// In valid UTF-8, the byte after an ASCII character starts a character.
proof fn lemma_boundary_after_ascii(b: Seq<u8>, j: int)
    requires
        valid_utf8(b),
        0 <= j < b.len(),
        b[j] <= 0x7f,
        is_char_boundary(b, j),
    ensures
        is_char_boundary(b, j + 1),
    decreases b.len(),
{
    let l = length_of_first_scalar(b);
    let rest = pop_first_scalar(b);
    if j == 0 {
        assert(is_char_boundary(rest, 0));
    } else {
        assert(is_char_boundary(rest, j - l));
        assert(rest[j - l] == b[j]);
        lemma_boundary_after_ascii(rest, j - l);
    }
}

/// The cut always falls on a character boundary, within the log, and leaves
/// at most the limit.
proof fn lemma_terminal_cut(b: Seq<u8>)
    requires
        valid_utf8(b),
    ensures
        0 <= terminal_cut(b) <= b.len(),
        is_char_boundary(b, terminal_cut(b)),
        b.len() - terminal_cut(b) <= MAX_TERMINAL_CHARS,
{
    vstd::utf8::is_char_boundary_start_end_of_seq(b);
    if b.len() > MAX_TERMINAL_CHARS {
        let start = b.len() - MAX_TERMINAL_CHARS;
        lemma_next_boundary(b, start);
        let c = next_boundary(b, start);
        if c < b.len() && newline_from(b, c) < b.len() {
            lemma_newline_from(b, c);
            let j = newline_from(b, c);
            vstd::utf8::is_char_boundary_iff_not_is_continuation_byte(b, j);
            assert(!is_continuation_byte(b[j]));
            lemma_boundary_after_ascii(b, j);
        }
    }
}

/// Drops the oldest part of the log once it is longer than
/// [`MAX_TERMINAL_CHARS`] bytes, as [`terminal_cut`] says where.
pub fn trim_terminal_buffer(terminal: &mut String)
    ensures
        encode_utf8(final(terminal)@) == trimmed_log_bytes(old(terminal)@),
{
    let ghost b = encode_utf8(terminal@);
    let len = terminal.as_str().as_bytes().len();
    if len <= MAX_TERMINAL_CHARS {
        assert(b.skip(0) =~= b);
        return;
    }
    proof {
        lemma_terminal_cut(b);
        lemma_next_boundary(b, b.len() - MAX_TERMINAL_CHARS);
    }
    let mut cut_at = len - MAX_TERMINAL_CHARS;
    while cut_at < len && !terminal.as_str().is_char_boundary(cut_at)
        invariant
            b == encode_utf8(terminal@),
            len == b.len(),
            len - MAX_TERMINAL_CHARS <= cut_at <= len,
            next_boundary(b, cut_at as int) == next_boundary(b, len - MAX_TERMINAL_CHARS),
        decreases len - cut_at,
    {
        cut_at += 1;
    }
    if cut_at < len {
        let bytes = terminal.as_str().as_bytes();
        let mut j = cut_at;
        while j < len && bytes[j] != 10
            invariant
                bytes@ == b,
                len == b.len(),
                cut_at <= j <= len,
                newline_from(b, j as int) == newline_from(b, cut_at as int),
            decreases len - j,
        {
            j += 1;
        }
        if j < len {
            cut_at = j + 1;
        }
    }
    assert(cut_at == terminal_cut(b));
    if cut_at > 0 {
        let kept = {
            let (_, tail) = terminal.as_str().split_at(cut_at);
            tail.to_owned()
        };
        *terminal = kept;
    }
}

/// Adds `line` to the log, on a line of its own after what is there, then
/// trims the log.
pub fn append_terminal_line(terminal: &mut String, line: &str)
    ensures
        encode_utf8(final(terminal)@) == trimmed_log_bytes(
            if old(terminal)@.len() == 0 {
                line@
            } else {
                old(terminal)@ + seq!['\n'] + line@
            },
        ),
{
    let ghost joined = if terminal@.len() == 0 {
        line@
    } else {
        terminal@ + seq!['\n'] + line@
    };
    if !terminal.as_str().is_empty() {
        proof {
            reveal_strlit("\n");
        }
        terminal.append("\n");
    }
    terminal.append(line);
    assert(terminal@ =~= joined);
    trim_terminal_buffer(terminal);
}

/// Law: whatever the log held, after a trim it holds at most
/// [`MAX_TERMINAL_CHARS`] bytes, all of them the last bytes of the old log,
/// and it starts on a character boundary.
pub proof fn lemma_trimmed_log_is_bounded_suffix(s: Seq<char>)
    ensures
        trimmed_log_bytes(s).len() <= MAX_TERMINAL_CHARS,
        ({
            let b = encode_utf8(s);
            &&& trimmed_log_bytes(s) == b.subrange(b.len() - trimmed_log_bytes(s).len(), b.len() as int)
            &&& is_char_boundary(b, b.len() - trimmed_log_bytes(s).len())
        }),
{
    let b = encode_utf8(s);
    lemma_terminal_cut(b);
    assert(b.skip(terminal_cut(b)) =~= b.subrange(terminal_cut(b), b.len() as int));
}

/// Law: trimming a log that was just trimmed changes nothing.
pub proof fn lemma_trim_idempotent(b: Seq<u8>)
    requires
        valid_utf8(b),
    ensures
        ({
            let t = b.skip(terminal_cut(b));
            t.skip(terminal_cut(t)) == t
        }),
{
    lemma_terminal_cut(b);
    let t = b.skip(terminal_cut(b));
    assert(t.skip(0) =~= t);
}

} // verus!
