use vstd::prelude::*;

use crate::text::string_from_chars;

verus! {

broadcast use vstd::string::group_string_axioms;

/// `char::is_whitespace`: the characters with the Unicode `White_Space`
/// property.
pub open spec fn is_whitespace(c: char) -> bool {
    let u = c as u32;
    ||| 0x09 <= u <= 0x0d
    ||| u == 0x20
    ||| u == 0x85
    ||| u == 0xa0
    ||| u == 0x1680
    ||| 0x2000 <= u <= 0x200a
    ||| u == 0x2028
    ||| u == 0x2029
    ||| u == 0x202f
    ||| u == 0x205f
    ||| u == 0x3000
}

/// Whether `c` is whitespace.
pub fn char_is_whitespace(c: char) -> (b: bool)
    ensures
        b == is_whitespace(c),
{
    let u = c as u32;
    (0x09 <= u && u <= 0x0d) || u == 0x20 || u == 0x85 || u == 0xa0 || u == 0x1680 || (0x2000
        <= u && u <= 0x200a) || u == 0x2028 || u == 0x2029 || u == 0x202f || u == 0x205f || u
        == 0x3000
}

/// The length of the first line of `s`: the characters before the first `\n`.
pub open spec fn line_len(s: Seq<char>) -> nat
    decreases s.len(),
{
    if s.len() == 0 || s[0] == '\n' {
        0
    } else {
        1 + line_len(s.drop_first())
    }
}

pub proof fn lemma_line_len_bound(s: Seq<char>)
    ensures
        line_len(s) <= s.len(),
        line_len(s) < s.len() ==> s[line_len(s) as int] == '\n',
    decreases s.len(),
{
    if s.len() > 0 && s[0] != '\n' {
        lemma_line_len_bound(s.drop_first());
    }
}

/// The lines of `s` as `str::lines` splits them: at each `\n`, with no empty
/// line after a final `\n`. (A `\r` before the `\n` stays in the line; every
/// use below trims it away with the rest of the whitespace.)
pub open spec fn split_lines(s: Seq<char>) -> Seq<Seq<char>>
    decreases s.len(),
{
    if s.len() == 0 {
        seq![]
    } else {
        let n = line_len(s);
        proof {
            lemma_line_len_bound(s);
        }
        if n >= s.len() {
            seq![s]
        } else {
            seq![s.take(n as int)] + split_lines(s.skip(n + 1int))
        }
    }
}

/// `s` without its leading whitespace.
pub open spec fn trim_start(s: Seq<char>) -> Seq<char>
    decreases s.len(),
{
    if s.len() > 0 && is_whitespace(s[0]) {
        trim_start(s.drop_first())
    } else {
        s
    }
}

/// `s` without its trailing whitespace.
pub open spec fn trim_end(s: Seq<char>) -> Seq<char>
    decreases s.len(),
{
    if s.len() > 0 && is_whitespace(s.last()) {
        trim_end(s.drop_last())
    } else {
        s
    }
}

/// `str::trim`.
pub open spec fn trim(s: Seq<char>) -> Seq<char> {
    trim_end(trim_start(s))
}

/// The leading run of non-whitespace characters of `s`.
pub open spec fn token_run(s: Seq<char>) -> Seq<char>
    decreases s.len(),
{
    if s.len() > 0 && !is_whitespace(s[0]) {
        seq![s[0]] + token_run(s.drop_first())
    } else {
        seq![]
    }
}

pub proof fn lemma_trim_start_len(s: Seq<char>)
    ensures
        trim_start(s).len() <= s.len(),
        trim_start(s).len() > 0 ==> !is_whitespace(trim_start(s)[0]),
    decreases s.len(),
{
    if s.len() > 0 && is_whitespace(s[0]) {
        lemma_trim_start_len(s.drop_first());
    }
}

pub proof fn lemma_token_run_len(s: Seq<char>)
    ensures
        token_run(s).len() <= s.len(),
        s.len() > 0 && !is_whitespace(s[0]) ==> token_run(s).len() >= 1,
    decreases s.len(),
{
    if s.len() > 0 && !is_whitespace(s[0]) {
        lemma_token_run_len(s.drop_first());
    }
}

/// `str::split_whitespace`: the maximal runs of non-whitespace characters.
pub open spec fn tokens(s: Seq<char>) -> Seq<Seq<char>>
    decreases s.len(),
{
    let t = trim_start(s);
    if t.len() == 0 {
        seq![]
    } else {
        let w = token_run(t);
        proof {
            lemma_trim_start_len(s);
            lemma_token_run_len(t);
        }
        if w.len() == 0 {
            seq![]
        } else {
            seq![w] + tokens(t.skip(w.len() as int))
        }
    }
}

/// `s` starts with `prefix`.
pub open spec fn starts_with(s: Seq<char>, prefix: Seq<char>) -> bool {
    s.len() >= prefix.len() && s.take(prefix.len() as int) == prefix
}

/// The banner the analyser prints, `NanoVNA`.
pub open spec fn banner_word() -> Seq<char> {
    seq!['N', 'a', 'n', 'o', 'V', 'N', 'A']
}

/// The shell prompt, `ch>`.
pub open spec fn prompt_word() -> Seq<char> {
    seq!['c', 'h', '>']
}

/// The echo of a `data` command.
pub open spec fn data_word() -> Seq<char> {
    seq!['d', 'a', 't', 'a']
}

/// A line that is the shell prompt (once trimmed).
pub open spec fn is_prompt_line(line: Seq<char>) -> bool {
    starts_with(trim(line), prompt_word())
}

/// What a line of a sweep reply holds: for a line that, trimmed, is not
/// empty, the banner, the prompt or the echo of `data`, its first two
/// whitespace-separated fields when it has two.
pub open spec fn line_values(line: Seq<char>) -> Option<(Seq<char>, Seq<char>)> {
    let t = trim(line);
    if t.len() == 0 || starts_with(t, banner_word()) || starts_with(t, prompt_word())
        || starts_with(t, data_word()) {
        None
    } else {
        let ts = tokens(t);
        if ts.len() >= 2 {
            Some((ts[0], ts[1]))
        } else {
            None
        }
    }
}

/// The value fields of the lines of a sweep reply, in order. With
/// `stop_at_prompt`, a prompt line ends the reply; otherwise it is skipped.
pub open spec fn sweep_pairs(lines: Seq<Seq<char>>, stop_at_prompt: bool) -> Seq<
    (Seq<char>, Seq<char>),
>
    decreases lines.len(),
{
    if lines.len() == 0 {
        seq![]
    } else if stop_at_prompt && is_prompt_line(lines[0]) {
        seq![]
    } else {
        let rest = sweep_pairs(lines.drop_first(), stop_at_prompt);
        match line_values(lines[0]) {
            Some(p) => seq![p] + rest,
            None => rest,
        }
    }
}

/// The characters of `text`.
pub fn chars_of(text: &str) -> (cs: Vec<char>)
    ensures
        cs@ == text@,
{
    let mut cs: Vec<char> = Vec::new();
    for c in it: text.chars()
        invariant
            cs@ == it.seq().take(it.index() as int),
    {
        cs.push(c);
    }
    assert(cs@ =~= text@);
    cs
}

/// The end of the line of `cs` that starts at `p`.
fn line_end_from(cs: &Vec<char>, p: usize) -> (e: usize)
    requires
        p <= cs.len(),
    ensures
        p <= e <= cs.len(),
        e - p == line_len(cs@.skip(p as int)),
{
    let mut i = p;
    while i < cs.len() && cs[i] != '\n'
        invariant
            p <= i <= cs.len(),
            line_len(cs@.skip(p as int)) == (i - p) + line_len(cs@.skip(i as int)),
        decreases cs.len() - i,
    {
        assert(cs@.skip(i as int).drop_first() =~= cs@.skip(i + 1));
        i += 1;
    }
    i
}

/// The first position in `from..to` that is not whitespace (or `to`).
fn skip_whitespace(cs: &Vec<char>, from: usize, to: usize) -> (k: usize)
    requires
        from <= to <= cs.len(),
    ensures
        from <= k <= to,
        trim_start(cs@.subrange(from as int, to as int)) == cs@.subrange(k as int, to as int),
        k < to ==> !is_whitespace(cs@[k as int]),
{
    let mut k = from;
    while k < to && char_is_whitespace(cs[k])
        invariant
            from <= k <= to <= cs.len(),
            trim_start(cs@.subrange(from as int, to as int)) == trim_start(
                cs@.subrange(k as int, to as int),
            ),
        decreases to - k,
    {
        assert(cs@.subrange(k as int, to as int).drop_first() =~= cs@.subrange(
            k + 1,
            to as int,
        ));
        k += 1;
    }
    k
}

/// The end of `from..to` once its trailing whitespace is dropped.
fn trim_end_from(cs: &Vec<char>, from: usize, to: usize) -> (k: usize)
    requires
        from <= to <= cs.len(),
    ensures
        from <= k <= to,
        trim_end(cs@.subrange(from as int, to as int)) == cs@.subrange(from as int, k as int),
{
    let mut k = to;
    while k > from && char_is_whitespace(cs[k - 1])
        invariant
            from <= k <= to <= cs.len(),
            trim_end(cs@.subrange(from as int, to as int)) == trim_end(
                cs@.subrange(from as int, k as int),
            ),
        decreases k - from,
    {
        assert(cs@.subrange(from as int, k as int).drop_last() =~= cs@.subrange(
            from as int,
            k - 1,
        ));
        k -= 1;
    }
    k
}

/// The end of the run of non-whitespace characters that starts at `from`.
fn skip_token(cs: &Vec<char>, from: usize, to: usize) -> (k: usize)
    requires
        from <= to <= cs.len(),
    ensures
        from <= k <= to,
        token_run(cs@.subrange(from as int, to as int)) == cs@.subrange(from as int, k as int),
{
    let mut k = from;
    while k < to && !char_is_whitespace(cs[k])
        invariant
            from <= k <= to <= cs.len(),
            token_run(cs@.subrange(from as int, to as int)) == cs@.subrange(from as int, k as int)
                + token_run(cs@.subrange(k as int, to as int)),
        decreases to - k,
    {
        let ghost rest = cs@.subrange(k as int, to as int);
        assert(rest.drop_first() =~= cs@.subrange(k + 1, to as int));
        assert(cs@.subrange(from as int, k as int) + seq![cs@[k as int]] =~= cs@.subrange(
            from as int,
            k + 1,
        ));
        assert(token_run(rest) == seq![rest[0]] + token_run(rest.drop_first()));
        k += 1;
    }
    assert(token_run(cs@.subrange(k as int, to as int)) =~= Seq::<char>::empty());
    assert(cs@.subrange(from as int, k as int) + Seq::<char>::empty() =~= cs@.subrange(
        from as int,
        k as int,
    ));
    k
}

/// Whether `cs[from..to]` starts with `NanoVNA`.
fn starts_with_banner(cs: &Vec<char>, from: usize, to: usize) -> (b: bool)
    requires
        from <= to <= cs.len(),
    ensures
        b == starts_with(cs@.subrange(from as int, to as int), banner_word()),
{
    let t = Ghost(cs@.subrange(from as int, to as int));
    let b = to - from >= 7 && cs[from] == 'N' && cs[from + 1] == 'a' && cs[from + 2] == 'n'
        && cs[from + 3] == 'o' && cs[from + 4] == 'V' && cs[from + 5] == 'N' && cs[from + 6]
        == 'A';
    proof {
        if b {
            assert(t@.take(7) =~= banner_word());
        }
        if starts_with(t@, banner_word()) {
            assert(t@.take(7)[0] == t@[0] && t@.take(7)[1] == t@[1] && t@.take(7)[2] == t@[2]
                && t@.take(7)[3] == t@[3] && t@.take(7)[4] == t@[4] && t@.take(7)[5] == t@[5]
                && t@.take(7)[6] == t@[6]);
        }
    }
    b
}

/// Whether `cs[from..to]` starts with `ch>`.
fn starts_with_prompt(cs: &Vec<char>, from: usize, to: usize) -> (b: bool)
    requires
        from <= to <= cs.len(),
    ensures
        b == starts_with(cs@.subrange(from as int, to as int), prompt_word()),
{
    let t = Ghost(cs@.subrange(from as int, to as int));
    let b = to - from >= 3 && cs[from] == 'c' && cs[from + 1] == 'h' && cs[from + 2] == '>';
    proof {
        if b {
            assert(t@.take(3) =~= prompt_word());
        }
        if starts_with(t@, prompt_word()) {
            assert(t@.take(3)[0] == t@[0] && t@.take(3)[1] == t@[1] && t@.take(3)[2] == t@[2]);
        }
    }
    b
}

/// Whether `cs[from..to]` starts with `data`.
fn starts_with_data(cs: &Vec<char>, from: usize, to: usize) -> (b: bool)
    requires
        from <= to <= cs.len(),
    ensures
        b == starts_with(cs@.subrange(from as int, to as int), data_word()),
{
    let t = Ghost(cs@.subrange(from as int, to as int));
    let b = to - from >= 4 && cs[from] == 'd' && cs[from + 1] == 'a' && cs[from + 2] == 't'
        && cs[from + 3] == 'a';
    proof {
        if b {
            assert(t@.take(4) =~= data_word());
        }
        if starts_with(t@, data_word()) {
            assert(t@.take(4)[0] == t@[0] && t@.take(4)[1] == t@[1] && t@.take(4)[2] == t@[2]
                && t@.take(4)[3] == t@[3]);
        }
    }
    b
}

/// `cs[from..to]` as a `String`.
fn string_of_range(cs: &Vec<char>, from: usize, to: usize) -> (s: String)
    requires
        from <= to <= cs.len(),
    ensures
        s@ == cs@.subrange(from as int, to as int),
{
    let mut out: Vec<char> = Vec::new();
    let mut i = from;
    while i < to
        invariant
            from <= i <= to <= cs.len(),
            out@ == cs@.subrange(from as int, i as int),
        decreases to - i,
    {
        out.push(cs[i]);
        assert(out@ =~= cs@.subrange(from as int, i + 1));
        i += 1;
    }
    string_from_chars(out)
}

/// The mathematical form of a list of value pairs.
pub open spec fn pairs_view(v: Seq<(String, String)>) -> Seq<(Seq<char>, Seq<char>)> {
    v.map_values(|p: (String, String)| (p.0@, p.1@))
}

/// The first two fields of the trimmed, non-empty line `cs[a..b]`, if it has two.
fn first_two_fields(cs: &Vec<char>, a: usize, b: usize) -> (r: Option<(String, String)>)
    requires
        a < b <= cs.len(),
        !is_whitespace(cs@[a as int]),
    ensures
        ({
            let ts = tokens(cs@.subrange(a as int, b as int));
            match r {
                Some(p) => ts.len() >= 2 && p.0@ == ts[0] && p.1@ == ts[1],
                None => ts.len() < 2,
            }
        }),
{
    let ghost t = cs@.subrange(a as int, b as int);
    assert(trim_start(t) == t);
    let c = skip_token(cs, a, b);
    proof {
        lemma_token_run_len(t);
    }
    assert(t.skip(c - a) =~= cs@.subrange(c as int, b as int));
    assert(tokens(t) == seq![cs@.subrange(a as int, c as int)] + tokens(
        cs@.subrange(c as int, b as int),
    ));
    let d = skip_whitespace(cs, c, b);
    if d == b {
        assert(tokens(cs@.subrange(c as int, b as int)) =~= Seq::<Seq<char>>::empty());
        return None;
    }
    let f = skip_token(cs, d, b);
    let ghost u = cs@.subrange(d as int, b as int);
    proof {
        lemma_token_run_len(u);
    }
    assert(tokens(cs@.subrange(c as int, b as int)) == seq![cs@.subrange(d as int, f as int)]
        + tokens(u.skip(f - d)));
    let first = string_of_range(cs, a, c);
    let second = string_of_range(cs, d, f);
    Some((first, second))
}

/// The value fields of the lines of a sweep reply, as [`sweep_pairs`]
/// defines them over the reply's lines.
pub fn sweep_value_pairs(text: &str, stop_at_prompt: bool) -> (pairs: Vec<(String, String)>)
    ensures
        pairs_view(pairs@) == sweep_pairs(split_lines(text@), stop_at_prompt),
{
    let cs = chars_of(text);
    let ghost all = sweep_pairs(split_lines(cs@), stop_at_prompt);
    let mut out: Vec<(String, String)> = Vec::new();
    let mut p: usize = 0;
    let mut done = false;
    assert(cs@.skip(0) =~= cs@);
    while p < cs.len() && !done
        invariant
            p <= cs.len(),
            !done ==> all == pairs_view(out@) + sweep_pairs(
                split_lines(cs@.skip(p as int)),
                stop_at_prompt,
            ),
            done ==> all == pairs_view(out@),
        decreases cs.len() - p + (if done {
            0int
        } else {
            1int
        }),
    {
        let ghost rest = cs@.skip(p as int);
        let e = line_end_from(&cs, p);
        let ghost line = cs@.subrange(p as int, e as int);
        let next: usize = if e < cs.len() {
            e + 1
        } else {
            e
        };
        proof {
            lemma_line_len_bound(rest);
            assert(rest.take((e - p) as int) =~= line);
            if e < cs.len() {
                assert(rest.skip((e - p) + 1) =~= cs@.skip(next as int));
            } else {
                assert(rest =~= line);
                assert(cs@.skip(next as int) =~= Seq::<char>::empty());
            }
            assert(split_lines(rest) =~= seq![line] + split_lines(cs@.skip(next as int)));
            assert((seq![line] + split_lines(cs@.skip(next as int))).drop_first() =~= split_lines(
                cs@.skip(next as int),
            ));
        }
        let ghost later = sweep_pairs(split_lines(cs@.skip(next as int)), stop_at_prompt);
        let a = skip_whitespace(&cs, p, e);
        let b = trim_end_from(&cs, a, e);
        assert(trim(line) == cs@.subrange(a as int, b as int));
        if a == b {
            assert(sweep_pairs(split_lines(rest), stop_at_prompt) == later);
        } else if starts_with_banner(&cs, a, b) {
            assert(sweep_pairs(split_lines(rest), stop_at_prompt) == later);
        } else if starts_with_prompt(&cs, a, b) {
            if stop_at_prompt {
                assert(sweep_pairs(split_lines(rest), stop_at_prompt) =~= Seq::empty());
                assert(pairs_view(out@) + Seq::empty() =~= pairs_view(out@));
                done = true;
            } else {
                assert(sweep_pairs(split_lines(rest), stop_at_prompt) == later);
            }
        } else if starts_with_data(&cs, a, b) {
            assert(sweep_pairs(split_lines(rest), stop_at_prompt) == later);
        } else {
            match first_two_fields(&cs, a, b) {
                Some(pair) => {
                    let ghost before = out@;
                    out.push(pair);
                    assert(line_values(line) == Some((pair.0@, pair.1@)));
                    assert(sweep_pairs(split_lines(rest), stop_at_prompt) == seq![
                        (pair.0@, pair.1@),
                    ] + later);
                    assert(pairs_view(out@) =~= pairs_view(before).push((pair.0@, pair.1@)));
                    assert(pairs_view(out@) + later =~= pairs_view(before) + (seq![
                        (pair.0@, pair.1@),
                    ] + later));
                },
                None => {
                    assert(sweep_pairs(split_lines(rest), stop_at_prompt) == later);
                },
            }
        }
        if !done {
            p = next;
        }
    }
    if !done {
        assert(cs@.skip(p as int) =~= Seq::<char>::empty());
        assert(pairs_view(out@) + Seq::empty() =~= pairs_view(out@));
    }
    out
}

/// `str::trim`: `text` without its leading and trailing whitespace.
pub fn trimmed(text: &str) -> (t: String)
    ensures
        t@ == trim(text@),
{
    let cs = chars_of(text);
    let a = skip_whitespace(&cs, 0, cs.len());
    let b = trim_end_from(&cs, a, cs.len());
    assert(cs@.subrange(0, cs@.len() as int) =~= cs@);
    string_of_range(&cs, a, b)
}

/// Law: reading a reply up to its first prompt line (as the S21 trace is
/// read) gives a prefix of reading it through (as the S11 trace is read),
/// and the same pairs when no line is a prompt.
pub proof fn lemma_stop_at_prompt_reads_a_prefix(lines: Seq<Seq<char>>)
    ensures
        sweep_pairs(lines, true).len() <= sweep_pairs(lines, false).len(),
        sweep_pairs(lines, false).take(sweep_pairs(lines, true).len() as int) == sweep_pairs(
            lines,
            true,
        ),
        (forall|i: int| 0 <= i < lines.len() ==> !is_prompt_line(#[trigger] lines[i]))
            ==> sweep_pairs(lines, true) == sweep_pairs(lines, false),
    decreases lines.len(),
{
    if lines.len() > 0 {
        let rest = lines.drop_first();
        lemma_stop_at_prompt_reads_a_prefix(rest);
        let t = sweep_pairs(lines, true);
        let f = sweep_pairs(lines, false);
        if is_prompt_line(lines[0]) {
            assert(t =~= Seq::<(Seq<char>, Seq<char>)>::empty());
            assert(f.take(0) =~= t);
        } else {
            let rt = sweep_pairs(rest, true);
            let rf = sweep_pairs(rest, false);
            assert forall|i: int| 0 <= i < rest.len() implies rest[i] == lines[i + 1] by {}
            match line_values(lines[0]) {
                Some(p) => {
                    assert(t == seq![p] + rt);
                    assert(f == seq![p] + rf);
                    assert(f.take(t.len() as int) =~= seq![p] + rf.take(rt.len() as int));
                },
                None => {
                    assert(t == rt);
                    assert(f == rf);
                },
            }
        }
    }
}

/// A text with no `\n` is one line (none when it is empty).
proof fn lemma_single_line(s: Seq<char>)
    requires
        forall|i: int| 0 <= i < s.len() ==> s[i] != '\n',
    ensures
        line_len(s) == s.len(),
        s.len() > 0 ==> split_lines(s) == seq![s],
    decreases s.len(),
{
    if s.len() > 0 {
        assert forall|i: int| 0 <= i < s.drop_first().len() implies s.drop_first()[i] != '\n' by {
            assert(s.drop_first()[i] == s[i + 1]);
        }
        lemma_single_line(s.drop_first());
    }
}

/// Leading whitespace is all that `trim_start` drops.
proof fn lemma_trim_start_of_padded(w: Seq<char>, s: Seq<char>)
    requires
        forall|i: int| 0 <= i < w.len() ==> is_whitespace(#[trigger] w[i]),
        s.len() == 0 || !is_whitespace(s[0]),
    ensures
        trim_start(w + s) == s,
    decreases w.len(),
{
    if w.len() == 0 {
        assert(w + s =~= s);
    } else {
        assert((w + s)[0] == w[0]);
        assert((w + s).drop_first() =~= w.drop_first() + s);
        assert forall|i: int| 0 <= i < w.drop_first().len() implies is_whitespace(
            #[trigger] w.drop_first()[i],
        ) by {
            assert(w.drop_first()[i] == w[i + 1]);
        }
        lemma_trim_start_of_padded(w.drop_first(), s);
    }
}

/// Trailing whitespace is all that `trim_end` drops.
proof fn lemma_trim_end_of_padded(s: Seq<char>, w: Seq<char>)
    requires
        forall|i: int| 0 <= i < w.len() ==> is_whitespace(#[trigger] w[i]),
        s.len() == 0 || !is_whitespace(s.last()),
    ensures
        trim_end(s + w) == s,
    decreases w.len(),
{
    if w.len() == 0 {
        assert(s + w =~= s);
    } else {
        assert((s + w).last() == w.last());
        assert((s + w).drop_last() =~= s + w.drop_last());
        assert forall|i: int| 0 <= i < w.drop_last().len() implies is_whitespace(
            #[trigger] w.drop_last()[i],
        ) by {
            assert(w.drop_last()[i] == w[i]);
        }
        lemma_trim_end_of_padded(s, w.drop_last());
    }
}

/// A word followed by whitespace (or nothing) is a whole token.
proof fn lemma_token_run_of_word(a: Seq<char>, rest: Seq<char>)
    requires
        forall|i: int| 0 <= i < a.len() ==> !is_whitespace(#[trigger] a[i]),
        rest.len() == 0 || is_whitespace(rest[0]),
    ensures
        token_run(a + rest) == a,
    decreases a.len(),
{
    if a.len() == 0 {
        assert(a + rest =~= rest);
        assert(token_run(rest) =~= Seq::<char>::empty());
    } else {
        assert((a + rest)[0] == a[0]);
        assert((a + rest).drop_first() =~= a.drop_first() + rest);
        assert forall|i: int| 0 <= i < a.drop_first().len() implies !is_whitespace(
            #[trigger] a.drop_first()[i],
        ) by {
            assert(a.drop_first()[i] == a[i + 1]);
        }
        lemma_token_run_of_word(a.drop_first(), rest);
        assert(seq![a[0]] + a.drop_first() =~= a);
    }
}

/// A word without whitespace followed by whitespace starts with a word
/// without whitespace only when the word itself does.
proof fn lemma_word_prefix(a: Seq<char>, rest: Seq<char>, word: Seq<char>)
    requires
        forall|i: int| 0 <= i < word.len() ==> !is_whitespace(#[trigger] word[i]),
        rest.len() > 0 && is_whitespace(rest[0]),
        starts_with(a + rest, word),
    ensures
        starts_with(a, word),
{
    if a.len() < word.len() {
        assert((a + rest).take(word.len() as int)[a.len() as int] == rest[0]);
        assert(word[a.len() as int] == rest[0]);
    } else {
        assert((a + rest).take(word.len() as int) =~= a.take(word.len() as int));
    }
}

/// Law (every value line gives its two fields): a line made of optional
/// leading whitespace, a first field, whitespace, a second field and
/// optional trailing whitespace (a `\r` among them) gives exactly that pair,
/// whatever character the fields start with (a sign, a digit, a letter),
/// unless the first field starts with `NanoVNA`, `ch>` or `data`.
pub proof fn lemma_value_line_gives_its_fields(
    w0: Seq<char>,
    a: Seq<char>,
    w: Seq<char>,
    b: Seq<char>,
    w2: Seq<char>,
    stop_at_prompt: bool,
)
    requires
        a.len() > 0,
        b.len() > 0,
        w.len() > 0,
        forall|i: int| 0 <= i < a.len() ==> !is_whitespace(#[trigger] a[i]),
        forall|i: int| 0 <= i < b.len() ==> !is_whitespace(#[trigger] b[i]),
        forall|i: int| 0 <= i < w0.len() ==> is_whitespace(#[trigger] w0[i]) && w0[i] != '\n',
        forall|i: int| 0 <= i < w.len() ==> is_whitespace(#[trigger] w[i]) && w[i] != '\n',
        forall|i: int| 0 <= i < w2.len() ==> is_whitespace(#[trigger] w2[i]) && w2[i] != '\n',
        !starts_with(a, seq!['N', 'a', 'n', 'o', 'V', 'N', 'A']),
        !starts_with(a, seq!['c', 'h', '>']),
        !starts_with(a, seq!['d', 'a', 't', 'a']),
    ensures
        sweep_pairs(split_lines(w0 + a + w + b + w2), stop_at_prompt) == seq![(a, b)],
{
    let line = w0 + a + w + b + w2;
    let core = a + w + b;
    assert forall|i: int| 0 <= i < line.len() implies line[i] != '\n' by {
        if i < w0.len() {
            assert(line[i] == w0[i]);
        } else if i < w0.len() + a.len() {
            assert(line[i] == a[i - w0.len()]);
            assert(!is_whitespace(a[i - w0.len()]));
        } else if i < w0.len() + a.len() + w.len() {
            assert(line[i] == w[i - w0.len() - a.len()]);
        } else if i < w0.len() + a.len() + w.len() + b.len() {
            assert(line[i] == b[i - w0.len() - a.len() - w.len()]);
            assert(!is_whitespace(b[i - w0.len() - a.len() - w.len()]));
        } else {
            assert(line[i] == w2[i - w0.len() - a.len() - w.len() - b.len()]);
        }
    }
    lemma_single_line(line);
    assert(split_lines(line) == seq![line]);
    // trim(line) is the core a, w, b
    assert(line =~= w0 + (core + w2));
    assert(core[0] == a[0]);
    lemma_trim_start_of_padded(w0, core + w2);
    assert(core.last() == b.last());
    assert(!is_whitespace(b[b.len() - 1]));
    lemma_trim_end_of_padded(core, w2);
    assert(trim(line) == core);
    // its fields are a and b
    assert(trim_start(core) == core);
    assert(core =~= a + (w + b));
    assert((w + b)[0] == w[0]);
    lemma_token_run_of_word(a, w + b);
    assert(core.skip(a.len() as int) =~= w + b);
    lemma_trim_start_of_padded(w, b);
    assert(b =~= b + Seq::<char>::empty());
    lemma_token_run_of_word(b, Seq::<char>::empty());
    assert(trim_start(b) == b) by {
        assert(Seq::<char>::empty() + b =~= b);
        lemma_trim_start_of_padded(Seq::<char>::empty(), b);
    }
    assert(b.skip(b.len() as int) =~= Seq::<char>::empty());
    assert(tokens(Seq::<char>::empty()) =~= Seq::<Seq<char>>::empty());
    assert(tokens(b) =~= seq![b]);
    assert(tokens(w + b) =~= seq![b]);
    assert(tokens(core) =~= seq![a, b]);
    // the first field is neither the banner, the prompt nor the data echo
    if starts_with(core, banner_word()) {
        lemma_word_prefix(a, w + b, banner_word());
    }
    if starts_with(core, prompt_word()) {
        lemma_word_prefix(a, w + b, prompt_word());
    }
    if starts_with(core, data_word()) {
        lemma_word_prefix(a, w + b, data_word());
    }
    assert(line_values(line) == Some((a, b)));
    assert(!is_prompt_line(line));
    assert(seq![line].drop_first() =~= Seq::<Seq<char>>::empty());
    assert(seq![line][0] == line);
    assert(sweep_pairs(Seq::<Seq<char>>::empty(), stop_at_prompt) =~= Seq::<
        (Seq<char>, Seq<char>),
    >::empty());
    assert(seq![(a, b)] + Seq::<(Seq<char>, Seq<char>)>::empty() =~= seq![(a, b)]);
}

/// Law (lines are read one after another): the pairs of a text are the
/// pairs of its first line followed by the pairs of the rest, unless the
/// reading stops at a prompt and the first line is one.
pub proof fn lemma_pairs_of_lines(first: Seq<char>, rest: Seq<char>, stop_at_prompt: bool)
    requires
        forall|i: int| 0 <= i < first.len() ==> first[i] != '\n',
        !(stop_at_prompt && is_prompt_line(first)),
    ensures
        sweep_pairs(split_lines(first + seq!['\n'] + rest), stop_at_prompt) == sweep_pairs(
            split_lines(first),
            stop_at_prompt,
        ) + sweep_pairs(split_lines(rest), stop_at_prompt),
{
    let text = first + seq!['\n'] + rest;
    assert forall|i: int| 0 <= i < first.len() implies text[i] == first[i] by {}
    assert(text[first.len() as int] == '\n');
    lemma_line_len_prefix(text, first.len() as int);
    assert(text.take(first.len() as int) =~= first);
    assert(text.skip(first.len() + 1int) =~= rest);
    let lines = split_lines(text);
    assert(lines == seq![first] + split_lines(rest));
    assert(lines[0] == first);
    assert(lines.drop_first() =~= split_lines(rest));
    if first.len() == 0 {
        assert(split_lines(first) =~= Seq::<Seq<char>>::empty());
        assert(trim(first) =~= Seq::<char>::empty());
        assert(line_values(first) is None);
        assert(Seq::<(Seq<char>, Seq<char>)>::empty() + sweep_pairs(split_lines(rest), stop_at_prompt)
            =~= sweep_pairs(split_lines(rest), stop_at_prompt));
    } else {
        lemma_single_line(first);
        let one = seq![first];
        assert(one[0] == first);
        assert(one.drop_first() =~= Seq::<Seq<char>>::empty());
        assert(sweep_pairs(Seq::<Seq<char>>::empty(), stop_at_prompt) =~= Seq::<
            (Seq<char>, Seq<char>),
        >::empty());
        let later = sweep_pairs(split_lines(rest), stop_at_prompt);
        match line_values(first) {
            Some(p) => {
                assert(sweep_pairs(one, stop_at_prompt) =~= seq![p]);
            },
            None => {
                assert(sweep_pairs(one, stop_at_prompt) =~= Seq::<(Seq<char>, Seq<char>)>::empty());
                assert(Seq::<(Seq<char>, Seq<char>)>::empty() + later =~= later);
            },
        }
    }
}

/// The first line of `s` ends at `k` when `s[k]` is the first `\n`.
proof fn lemma_line_len_prefix(s: Seq<char>, k: int)
    requires
        0 <= k < s.len(),
        s[k] == '\n',
        forall|i: int| 0 <= i < k ==> s[i] != '\n',
    ensures
        line_len(s) == k,
    decreases k,
{
    if k > 0 {
        assert forall|i: int| 0 <= i < k - 1 implies s.drop_first()[i] != '\n' by {
            assert(s.drop_first()[i] == s[i + 1]);
        }
        lemma_line_len_prefix(s.drop_first(), k - 1);
    }
}

/// Dropping trailing whitespace never reaches into a leading word.
proof fn lemma_trim_end_keeps_word(p: Seq<char>, s: Seq<char>)
    requires
        p.len() > 0,
        !is_whitespace(p.last()),
    ensures
        trim_end(p + s) == p + trim_end(s),
    decreases s.len(),
{
    if s.len() == 0 {
        assert(p + s =~= p);
        assert(p + Seq::<char>::empty() =~= p);
    } else {
        assert((p + s).last() == s.last());
        assert((p + s).drop_last() =~= p + s.drop_last());
        lemma_trim_end_keeps_word(p, s.drop_last());
        if !is_whitespace(s.last()) {
            assert(trim_end(p + s) == p + s);
        }
    }
}

/// Law (the prompt ends a trace read up to it): a line that, after optional
/// leading whitespace, starts with `ch>` ends the reading when it stops at a
/// prompt, so nothing after it counts; otherwise it gives no pair and the
/// lines after it are read as if it were not there.
pub proof fn lemma_prompt_line_ends_the_reading(
    w0: Seq<char>,
    tail: Seq<char>,
    rest: Seq<char>,
)
    requires
        forall|i: int| 0 <= i < w0.len() ==> is_whitespace(#[trigger] w0[i]) && w0[i] != '\n',
        forall|i: int| 0 <= i < tail.len() ==> #[trigger] tail[i] != '\n',
    ensures
        sweep_pairs(split_lines(w0 + seq!['c', 'h', '>'] + tail + seq!['\n'] + rest), true)
            == Seq::<(Seq<char>, Seq<char>)>::empty(),
        sweep_pairs(split_lines(w0 + seq!['c', 'h', '>'] + tail + seq!['\n'] + rest), false)
            == sweep_pairs(split_lines(rest), false),
{
    let word = seq!['c', 'h', '>'];
    let first = w0 + word + tail;
    assert(!is_whitespace('c') && !is_whitespace('h') && !is_whitespace('>'));
    assert forall|i: int| 0 <= i < first.len() implies first[i] != '\n' by {
        if i < w0.len() {
            assert(first[i] == w0[i]);
        } else if i < w0.len() + 3 {
            assert(first[i] == word[i - w0.len()]);
        } else {
            assert(first[i] == tail[i - w0.len() - 3]);
        }
    }
    assert(first =~= w0 + (word + tail));
    assert((word + tail)[0] == 'c');
    lemma_trim_start_of_padded(w0, word + tail);
    assert(word.last() == '>');
    lemma_trim_end_keeps_word(word, tail);
    let t = trim(first);
    assert(t == word + trim_end(tail));
    assert(t.take(3) =~= word);
    assert(starts_with(t, prompt_word()));
    assert(is_prompt_line(first));
    assert(line_values(first) is None);
    let text = first + seq!['\n'] + rest;
    assert forall|i: int| 0 <= i < first.len() implies text[i] == first[i] by {}
    assert(text[first.len() as int] == '\n');
    lemma_line_len_prefix(text, first.len() as int);
    assert(text.take(first.len() as int) =~= first);
    assert(text.skip(first.len() + 1int) =~= rest);
    let lines = split_lines(text);
    assert(lines == seq![first] + split_lines(rest));
    assert(lines[0] == first);
    assert(lines.drop_first() =~= split_lines(rest));
    assert(w0 + word + tail + seq!['\n'] + rest =~= text);
}

} // verus!
