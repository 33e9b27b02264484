use vstd::prelude::*;

use vstd::string::StrSliceExecFns;

use crate::cpu::Command;
use crate::cpu::bad_count_line;
use crate::cpu::cmd_of_tokens;
use crate::error::ParseError;

verus! {

/// The separators of the token grammar: blanks, tabs and line ends.
pub open spec fn is_space_char(c: char) -> bool {
    c == ' ' || c == '\t' || c == '\r' || c == '\n'
}

/// The length of the token that starts at the head of `s`: the longest
/// prefix free of separators.
pub open spec fn word_len(s: Seq<char>) -> nat
    decreases s.len(),
{
    if s.len() == 0 || is_space_char(s[0]) {
        0
    } else {
        1 + word_len(s.drop_first())
    }
}

/// The tokens of a line: the maximal runs of non-separator characters, in
/// order.
pub open spec fn spec_tokens(s: Seq<char>) -> Seq<Seq<char>>
    decreases s.len(),
    via spec_tokens_decreases
{
    if s.len() == 0 {
        Seq::empty()
    } else if is_space_char(s[0]) {
        spec_tokens(s.drop_first())
    } else {
        seq![s.take(word_len(s) as int)] + spec_tokens(s.skip(word_len(s) as int))
    }
}

#[via_fn]
proof fn spec_tokens_decreases(s: Seq<char>) {
    if s.len() > 0 && !is_space_char(s[0]) {
        lemma_word_len_le(s);
        assert(word_len(s) >= 1);
    }
}

/// The head token never reaches past the end of the text.
pub proof fn lemma_word_len_le(s: Seq<char>)
    ensures
        word_len(s) <= s.len(),
    decreases s.len(),
{
    if s.len() > 0 && !is_space_char(s[0]) {
        lemma_word_len_le(s.drop_first());
    }
}

pub open spec fn is_digit_char(c: char) -> bool {
    '0' as int <= c as int <= '9' as int
}

pub open spec fn digit_val(c: char) -> int {
    c as int - '0' as int
}

pub open spec fn all_digits(s: Seq<char>) -> bool {
    forall|i: int| 0 <= i < s.len() ==> is_digit_char(s[i])
}

/// The number that a run of decimal digits denotes, most significant digit
/// first.
pub open spec fn dec_val(s: Seq<char>) -> int
    decreases s.len(),
{
    if s.len() == 0 {
        0
    } else {
        dec_val(s.drop_last()) * 10 + digit_val(s.last())
    }
}

/// A well-formed repetition count: one or more decimal digits denoting a
/// value that fits in `u32`.
pub open spec fn is_count_token(s: Seq<char>) -> bool {
    s.len() >= 1 && all_digits(s) && dec_val(s) <= u32::MAX
}

/// The views of a list of collected tokens.
pub open spec fn tokens_view(ts: Seq<Vec<char>>) -> Seq<Seq<char>> {
    ts.map_values(|t: Vec<char>| t@)
}

pub proof fn lemma_dec_val_nonneg(s: Seq<char>)
    requires
        all_digits(s),
    ensures
        dec_val(s) >= 0,
    decreases s.len(),
{
    if s.len() > 0 {
        assert(all_digits(s.drop_last())) by {
            assert(forall|i: int|
                0 <= i < s.len() - 1 ==> s.drop_last()[i] == s[i] && is_digit_char(s[i]));
        }
        lemma_dec_val_nonneg(s.drop_last());
    }
}

/// Appending one digit multiplies the value by ten and adds the digit.
pub proof fn lemma_dec_val_step(s: Seq<char>, i: int)
    requires
        0 <= i < s.len(),
    ensures
        dec_val(s.take(i + 1)) == dec_val(s.take(i)) * 10 + digit_val(s[i]),
{
    assert(s.take(i + 1).drop_last() =~= s.take(i));
    assert(s.take(i + 1).last() == s[i]);
}

/// For digit runs, every prefix denotes at most the whole run's value.
pub proof fn lemma_dec_val_prefix(s: Seq<char>, k: int)
    requires
        all_digits(s),
        0 <= k <= s.len(),
    ensures
        dec_val(s.take(k)) <= dec_val(s),
    decreases s.len() - k,
{
    if k == s.len() {
        assert(s.take(k) =~= s);
    } else {
        lemma_dec_val_step(s, k);
        assert(all_digits(s.take(k))) by {
            assert(forall|i: int| 0 <= i < k ==> s.take(k)[i] == s[i] && is_digit_char(s[i]));
        }
        lemma_dec_val_nonneg(s.take(k));
        assert(dec_val(s.take(k)) <= dec_val(s.take(k + 1)));
        lemma_dec_val_prefix(s, k + 1);
    }
}

/// Whether `c` is one of the token grammar's separators.
pub fn is_space(c: char) -> (r: bool)
    ensures
        r == is_space_char(c),
{
    c == ' ' || c == '\t' || c == '\r' || c == '\n'
}

/// Whether `c` is a decimal digit.
pub fn is_digit(c: char) -> (r: bool)
    ensures
        r == is_digit_char(c),
{
    c >= '0' && c <= '9'
}

/// If the characters of `u` up to `m` are non-separators and `m` is the
/// run's end, then `m` is the head token's length.
proof fn lemma_word_len_is(u: Seq<char>, m: int)
    requires
        0 <= m <= u.len(),
        forall|k: int| 0 <= k < m ==> !is_space_char(u[k]),
        m < u.len() ==> is_space_char(u[m]),
    ensures
        word_len(u) == m,
    decreases m,
{
    if m == 0 {
    } else {
        assert(!is_space_char(u[0]));
        let v = u.drop_first();
        assert(forall|k: int| 0 <= k < m - 1 ==> v[k] == u[k + 1] && !is_space_char(u[k + 1]));
        assert(m - 1 < v.len() ==> v[m - 1] == u[m]);
        lemma_word_len_is(v, m - 1);
    }
}

/// Collects the characters of `s` with indices in `from .. to`.
fn collect_range(s: &str, from: usize, to: usize) -> (r: Vec<char>)
    requires
        from <= to <= s@.len(),
    ensures
        r@ == s@.subrange(from as int, to as int),
{
    let mut out: Vec<char> = Vec::new();
    let mut k = from;
    while k < to
        invariant
            from <= k <= to <= s@.len(),
            out@ == s@.subrange(from as int, k as int),
        decreases to - k,
    {
        let c = s.get_char(k);
        out.push(c);
        proof {
            assert(s@.subrange(from as int, k + 1 as int) =~= s@.subrange(from as int, k as int)
                .push(s@[k as int]));
        }
        k = k + 1;
    }
    out
}

/// Splits the text starting at character `i` into its tokens.
fn tokenize_from(s: &str, i: usize) -> (r: Vec<Vec<char>>)
    requires
        i <= s@.len(),
    ensures
        tokens_view(r@) == spec_tokens(s@.skip(i as int)),
    decreases s@.len() - i,
{
    let n = s.unicode_len();
    if i == n {
        let out: Vec<Vec<char>> = Vec::new();
        proof {
            assert(s@.skip(i as int) =~= Seq::<char>::empty());
            assert(tokens_view(out@) =~= spec_tokens(s@.skip(i as int)));
        }
        out
    } else {
        let c = s.get_char(i);
        if is_space(c) {
            let out = tokenize_from(s, i + 1);
            proof {
                assert(s@.skip(i as int).drop_first() =~= s@.skip(i + 1 as int));
            }
            out
        } else {
            let mut j = i + 1;
            loop
                invariant
                    i + 1 <= j <= n,
                    n == s@.len(),
                    forall|k: int| i <= k < j ==> !is_space_char(s@[k]),
                ensures
                    i + 1 <= j <= n,
                    n == s@.len(),
                    forall|k: int| i <= k < j ==> !is_space_char(s@[k]),
                    j < n ==> is_space_char(s@[j as int]),
                decreases n - j,
            {
                if j == n {
                    break ;
                }
                let c2 = s.get_char(j);
                if is_space(c2) {
                    break ;
                }
                j = j + 1;
            }
            let tok = collect_range(s, i, j);
            let mut out = tokenize_from(s, j);
            proof {
                let u = s@.skip(i as int);
                assert(forall|k: int| 0 <= k < j - i ==> u[k] == s@[i + k]);
                assert(j < n ==> u[j - i] == s@[j as int]);
                lemma_word_len_is(u, j - i);
                assert(u.take(j - i) =~= s@.subrange(i as int, j as int));
                assert(u.skip(j - i) =~= s@.skip(j as int));
            }
            out.insert(0, tok);
            proof {
                let u = s@.skip(i as int);
                assert(tokens_view(out@) =~= seq![u.take(word_len(u) as int)] + spec_tokens(
                    u.skip(word_len(u) as int),
                ));
            }
            out
        }
    }
}

/// Splits a line of source text into its tokens.
pub fn tokenize(s: &str) -> (r: Vec<Vec<char>>)
    ensures
        tokens_view(r@) == spec_tokens(s@),
{
    let out = tokenize_from(s, 0);
    proof {
        assert(s@.skip(0) =~= s@);
    }
    out
}

/// Whether the collected token `t` reads exactly as `pat`.
pub fn token_eq(t: &Vec<char>, pat: &str) -> (r: bool)
    ensures
        r <==> t@ == pat@,
{
    let n = pat.unicode_len();
    if t.len() != n {
        return false;
    }
    let mut i: usize = 0;
    while i < n
        invariant
            0 <= i <= n,
            n == pat@.len(),
            t@.len() == n,
            forall|k: int| 0 <= k < i ==> t@[k] == pat@[k],
        decreases n - i,
    {
        let c = pat.get_char(i);
        if t[i] != c {
            return false;
        }
        i = i + 1;
    }
    proof {
        assert(t@ =~= pat@);
    }
    true
}

/// Reads a repetition count: the token's decimal value, or `None` where the
/// token is not a digit run or its value does not fit in `u32`.
pub fn parse_count(t: &Vec<char>) -> (r: Option<u32>)
    ensures
        match r {
            Some(n) => is_count_token(t@) && n == dec_val(t@),
            None => !is_count_token(t@),
        },
{
    if t.len() == 0 {
        return None;
    }
    let mut val: u64 = 0;
    let mut i: usize = 0;
    while i < t.len()
        invariant
            0 <= i <= t@.len(),
            all_digits(t@.take(i as int)),
            val == dec_val(t@.take(i as int)),
            val <= u32::MAX,
        decreases t@.len() - i,
    {
        let c = t[i];
        if !is_digit(c) {
            return None;
        }
        let d = c as u32 - '0' as u32;
        proof {
            lemma_dec_val_step(t@, i as int);
        }
        let next = val * 10 + d as u64;
        if next > u32::MAX as u64 {
            proof {
                if all_digits(t@) {
                    lemma_dec_val_prefix(t@, i + 1 as int);
                }
            }
            return None;
        }
        val = next;
        proof {
            assert(all_digits(t@.take(i + 1 as int))) by {
                assert(forall|k: int|
                    0 <= k < i + 1 ==> t@.take(i + 1 as int)[k] == t@[k]);
            }
        }
        i = i + 1;
    }
    proof {
        assert(t@.take(t@.len() as int) =~= t@);
    }
    Some(val as u32)
}

/// Whether the line holds a colon, which marks it as a memory-size
/// declaration rather than an instruction.
pub open spec fn has_colon(s: Seq<char>) -> bool {
    exists|i: int| 0 <= i < s.len() && s[i] == ':'
}

/// The declared memory size of a well-formed size declaration
/// `label: <integer>`: two tokens, a label ending in the colon and a
/// non-zero bit count.
pub open spec fn header_size(ts: Seq<Seq<char>>) -> Option<u32> {
    if ts.len() == 2 && ts[0].len() >= 2 && ts[0].last() == ':' && is_count_token(ts[1])
        && 1 <= dec_val(ts[1]) {
        Some(dec_val(ts[1]) as u32)
    } else {
        None
    }
}

/// The views of the lines of a source file.
pub open spec fn line_views(ls: Seq<String>) -> Seq<Seq<char>> {
    ls.map_values(|l: String| l@)
}

/// The text that a failing line is reported with: the line itself, with a
/// note appended when only its repetition count was at fault.
pub open spec fn line_err_text(s: Seq<char>) -> Seq<char> {
    if bad_count_line(spec_tokens(s)) {
        s + ": invalid repetition count"@
    } else {
        s
    }
}

fn line_has_colon(s: &String) -> (r: bool)
    ensures
        r <==> has_colon(s@),
{
    let st = s.as_str();
    let n = st.unicode_len();
    let mut i: usize = 0;
    while i < n
        invariant
            0 <= i <= n,
            n == s@.len(),
            st@ == s@,
            forall|k: int| 0 <= k < i ==> s@[k] != ':',
        decreases n - i,
    {
        if st.get_char(i) == ':' {
            proof {
                assert(s@[i as int] == ':');
            }
            return true;
        }
        i = i + 1;
    }
    false
}

/// Reads a program's source text, one instruction per line. A first line
/// holding a colon is a memory-size declaration `label: <integer>`; a
/// malformed one (or a declared size of zero) is a `BitCountParseError`.
/// The first line after it that does not read as an instruction is a
/// `CommandParseError` with the offending text and its 0-based line number.
pub fn parse_program(lines: &Vec<String>) -> (r: Result<(Option<u32>, Vec<Command>), ParseError>)
    ensures
        ({
            let lv = line_views(lines@);
            let hdr = lv.len() > 0 && has_colon(lv[0]);
            let start: int = if hdr { 1 } else { 0 };
            match r {
                Ok(p) => {
                    &&& (hdr ==> p.0 == header_size(spec_tokens(lv[0])) && p.0 is Some)
                    &&& (!hdr ==> p.0 is None)
                    &&& p.1@.len() == lv.len() - start
                    &&& forall|j: int|
                        start <= j < lv.len() ==> cmd_of_tokens(spec_tokens(lv[j])) == Some(
                            p.1@[j - start],
                        )
                },
                Err(ParseError::BitCountParseError) => {
                    hdr && header_size(spec_tokens(lv[0])) is None
                },
                Err(ParseError::CommandParseError { cmd, line }) => {
                    &&& (hdr ==> header_size(spec_tokens(lv[0])) is Some)
                    &&& start <= line < lv.len()
                    &&& cmd_of_tokens(spec_tokens(lv[line as int])) is None
                    &&& forall|j: int|
                        start <= j < line ==> cmd_of_tokens(spec_tokens(lv[j])) is Some
                    &&& cmd@ == line_err_text(lv[line as int])
                },
            }
        }),
{
    let mut size: Option<u32> = None;
    let mut start: usize = 0;
    if lines.len() > 0 && line_has_colon(&lines[0]) {
        let ts = tokenize(lines[0].as_str());
        if ts.len() != 2 {
            return Err(ParseError::BitCountParseError);
        }
        let t0 = &ts[0];
        if t0.len() < 2 || t0[t0.len() - 1] != ':' {
            return Err(ParseError::BitCountParseError);
        }
        match parse_count(&ts[1]) {
            Some(n) => {
                if n < 1 {
                    return Err(ParseError::BitCountParseError);
                }
                size = Some(n);
                start = 1;
            },
            None => {
                return Err(ParseError::BitCountParseError);
            },
        }
    }
    let mut cmds: Vec<Command> = Vec::new();
    let mut i: usize = start;
    while i < lines.len()
        invariant
            start <= i <= lines@.len(),
            cmds@.len() == i - start,
            ({
                let lv = line_views(lines@);
                let hdr = lv.len() > 0 && has_colon(lv[0]);
                &&& (hdr ==> start == 1 && size == header_size(spec_tokens(lv[0])) && size is Some)
                &&& (!hdr ==> start == 0 && size is None)
                &&& forall|j: int|
                    start <= j < i ==> cmd_of_tokens(spec_tokens(lv[j])) == Some(
                        cmds@[j - start],
                    )
            }),
        decreases lines@.len() - i,
    {
        match Command::from_str(lines[i].as_str()) {
            Ok(c) => {
                cmds.push(c);
            },
            Err(e) => {
                return Err(ParseError::CommandParseError { cmd: e.command_text, line: i });
            },
        }
        i = i + 1;
    }
    Ok((size, cmds))
}

} // verus!
