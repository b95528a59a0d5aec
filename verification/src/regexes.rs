//! Topic patterns: which are accepted, and which topics they match.

use crate::text::{chars_of, opt_str};
use vstd::prelude::*;

verus! {

/// What a pattern that names a flag out of reach is told.
pub const INVALID_PERL_OP: &'static str = "invalid or unsupported Perl syntax";

/// The inline flags that are accepted, and the hyphen that negates those behind it.
pub open spec fn known_flag(c: char) -> bool {
    c == 'i' || c == 'm' || c == 's' || c == 'U' || c == '-'
}

/// The character at `i`, if there is one.
pub open spec fn char_at(s: Seq<char>, i: int) -> Option<char> {
    if 0 <= i < s.len() {
        Some(s[i])
    } else {
        None
    }
}

/// The first flag that is not accepted in the flag group whose flags begin at `i`; the group's
/// flags end at a closing bracket or a colon.
pub open spec fn unknown_flag(s: Seq<char>, i: int) -> Option<char>
    decreases s.len() - i,
{
    if i < 0 || i >= s.len() || s[i] == ')' || s[i] == ':' {
        None
    } else if !known_flag(s[i]) {
        Some(s[i])
    } else {
        unknown_flag(s, i + 1)
    }
}

/// Whether what stands behind `(?` begins something other than a flag group.
pub open spec fn not_flags(c: Option<char>) -> bool {
    c == Some('P') || c == Some(':') || c == Some('<') || c == Some('\'') || c == Some('=') || c == Some('!')
}

/// The first inline flag from `i` on that is not accepted. An escaped character and what stands in
/// a character class (`in_class`) begin no group.
pub open spec fn unsupported_flag(s: Seq<char>, i: int, in_class: bool) -> Option<char>
    decreases
            (if i < s.len() {
                s.len() - i
            } else {
                0
            }),
{
    if i < 0 || i >= s.len() {
        None
    } else if s[i] == '\\' {
        unsupported_flag(s, i + 2, in_class)
    } else if in_class {
        unsupported_flag(s, i + 1, s[i] != ']')
    } else if s[i] == '[' {
        unsupported_flag(s, i + 1, true)
    } else if s[i] == '(' && char_at(s, i + 1) == Some('?') && !not_flags(char_at(s, i + 2)) && unknown_flag(s, i + 2) is Some {
        unknown_flag(s, i + 2)
    } else {
        unsupported_flag(s, i + 1, false)
    }
}

/// The first inline flag of a pattern that is not accepted, if it has one.
pub fn re2j_unsupported_inline_flag(pattern: &str) -> (r: Option<char>)
    ensures
        r == unsupported_flag(pattern@, 0, false),
{
    let chars: Vec<char> = chars_of(pattern);
    let n: usize = chars.len();
    let ghost all = pattern@;
    let mut index: usize = 0;
    let mut in_class: bool = false;
    while index < n
        invariant
            all == pattern@,
            chars@ == all,
            n == all.len(),
            unsupported_flag(all, 0, false) == unsupported_flag(all, index as int, in_class),
        decreases n - index,
    {
        let current: char = chars[index];
        if current == '\\' {
            if n - index <= 2 {
                assert(unsupported_flag(all, index + 2, in_class) is None);
                return None;
            }
            index = index + 2;
        } else if in_class {
            in_class = current != ']';
            index = index + 1;
        } else if current == '[' {
            in_class = true;
            index = index + 1;
        } else {
            let group: bool = current == '(' && n - index > 1 && chars[index + 1] == '?';
            let flags: bool = group && !(n - index > 2 && (chars[index + 2] == 'P' || chars[index + 2] == ':' || chars[index + 2] == '<' || chars[index
                + 2] == '\'' || chars[index + 2] == '=' || chars[index + 2] == '!'));
            assert(flags == (all[index as int] == '(' && char_at(all, index + 1) == Some('?') && !not_flags(char_at(all, index + 2))));
            if flags && n - index > 2 {
                let mut flag: usize = index + 2;
                while flag < n && chars[flag] != ')' && chars[flag] != ':'
                    invariant
                        index + 2 <= flag <= n,
                        n == all.len(),
                        chars@ == all,
                        all == pattern@,
                        flags == (all[index as int] == '(' && char_at(all, index + 1) == Some('?') && !not_flags(char_at(all, index + 2))),
                        flags,
                        all[index as int] != '\\',
                        unsupported_flag(all, 0, false) == unsupported_flag(all, index as int, false),
                        unknown_flag(all, index + 2) == unknown_flag(all, flag as int),
                    decreases n - flag,
                {
                    let c: char = chars[flag];
                    if !(c == 'i' || c == 'm' || c == 's' || c == 'U' || c == '-') {
                        return Some(c);
                    }
                    flag = flag + 1;
                }
                assert(unknown_flag(all, index + 2) is None);
            }
            index = index + 1;
        }
    }
    None
}

/// The text of the error that compiling `pattern` gives, where it does not compile.
pub uninterp spec fn regex_error(pattern: Seq<char>) -> Option<Seq<char>>;

/// Whether `pattern` compiles and matches somewhere in `text`.
pub uninterp spec fn regex_matches(pattern: Seq<char>, text: Seq<char>) -> bool;

/// Compiles `pattern` with `regex::Regex::new` and hands back the text of its error, if it gives
/// one. Which patterns compile, and what the error says, are the crate's to decide; both follow
/// from the pattern alone.
#[verifier::external_body]
fn pattern_error(pattern: &str) -> (r: Option<String>)
    ensures
        opt_str(r) == regex_error(pattern@),
{
    match regex::Regex::new(pattern) {
        Ok(_) => None,
        Err(error) => Some(error.to_string()),
    }
}

/// Whether `pattern` matches somewhere in `text`, by `regex::Regex::is_match`; a pattern that does
/// not compile matches nothing. What matches is the crate's to decide; it follows from the two
/// strings alone.
#[verifier::external_body]
pub(crate) fn is_match(pattern: &str, text: &str) -> (r: bool)
    ensures
        r == regex_matches(pattern@, text@),
        regex_error(pattern@) is Some ==> !r,
{
    match regex::Regex::new(pattern) {
        Ok(re) => re.is_match(text),
        Err(_) => false,
    }
}

/// Whether `c` is whitespace: the Unicode property `White_Space`.
pub open spec fn white(c: char) -> bool {
    let v = c as u32;
    (9 <= v <= 13) || v == 32 || v == 0x85 || v == 0xA0 || v == 0x1680 || (0x2000 <= v <= 0x200A) || v == 0x2028 || v == 0x2029 || v == 0x202F || v
        == 0x205F || v == 0x3000
}

fn is_white(c: char) -> (r: bool)
    ensures
        r == white(c),
{
    let v: u32 = c as u32;
    (9 <= v && v <= 13) || v == 32 || v == 0x85 || v == 0xA0 || v == 0x1680 || (0x2000 <= v && v <= 0x200A) || v == 0x2028 || v == 0x2029 || v
        == 0x202F || v == 0x205F || v == 0x3000
}

pub open spec fn trim_front(s: Seq<char>) -> Seq<char>
    decreases s.len(),
{
    if s.len() > 0 && white(s[0]) {
        trim_front(s.drop_first())
    } else {
        s
    }
}

pub open spec fn trim_back(s: Seq<char>) -> Seq<char>
    decreases s.len(),
{
    if s.len() > 0 && white(s.last()) {
        trim_back(s.drop_last())
    } else {
        s
    }
}

/// Without the whitespace at either end.
pub open spec fn trimmed(s: Seq<char>) -> Seq<char> {
    trim_back(trim_front(s))
}

/// Where the line that begins at `i` ends.
pub open spec fn line_end(s: Seq<char>, i: int) -> int
    decreases s.len() - i,
{
    if i < 0 || i >= s.len() || s[i] == '\n' {
        i
    } else {
        line_end(s, i + 1)
    }
}

/// `line` put behind `before` with a space between, where neither is empty.
pub open spec fn spaced(before: Seq<char>, line: Seq<char>) -> Seq<char> {
    if line.len() == 0 {
        before
    } else if before.len() == 0 {
        line
    } else {
        before + " "@ + line
    }
}

/// The lines from `i` on, each trimmed and the empty ones left out, on one line behind `before`.
pub open spec fn flattened_from(s: Seq<char>, i: int, before: Seq<char>) -> Seq<char>
    decreases
            (if i < s.len() {
                s.len() - i
            } else {
                0
            }),
{
    if i < 0 || i >= s.len() {
        before
    } else {
        let e = line_end(s, i);
        if e < i {
            before
        } else {
            flattened_from(s, e + 1, spaced(before, trimmed(s.subrange(i, if e <= s.len() { e } else { s.len() as int }))))
        }
    }
}

/// A text on one line: its lines trimmed, the empty ones left out, joined by spaces.
pub open spec fn flattened(s: Seq<char>) -> Seq<char> {
    flattened_from(s, 0, seq![])
}

/// Puts a text on one line.
fn flatten(text: &str) -> (r: String)
    ensures
        r@ == flattened(text@),
{
    let chars: Vec<char> = chars_of(text);
    let n: usize = chars.len();
    let ghost s = text@;
    let mut out = String::new();
    let mut i: usize = 0;
    assert(out@ =~= seq![]);
    while i < n
        invariant
            chars@ == s,
            s == text@,
            n == s.len(),
            i <= n,
            flattened(s) == flattened_from(s, i as int, out@),
        decreases n - i,
    {
        let mut e: usize = i;
        while e < n && chars[e] != '\n'
            invariant
                i <= e <= n,
                n == s.len(),
                chars@ == s,
                line_end(s, i as int) == line_end(s, e as int),
            decreases n - e,
        {
            e = e + 1;
        }
        assert(line_end(s, i as int) == e);
        let ghost line = s.subrange(i as int, e as int);
        let mut a: usize = i;
        while a < e && is_white(chars[a])
            invariant
                i <= a <= e <= n,
                n == s.len(),
                chars@ == s,
                trim_front(line) == trim_front(s.subrange(a as int, e as int)),
            decreases e - a,
        {
            assert(s.subrange(a as int, e as int).drop_first() =~= s.subrange(a + 1, e as int));
            a = a + 1;
        }
        assert(trim_front(line) == s.subrange(a as int, e as int));
        let mut b: usize = e;
        while b > a && is_white(chars[b - 1])
            invariant
                i <= a <= b <= e <= n,
                n == s.len(),
                chars@ == s,
                trim_back(s.subrange(a as int, e as int)) == trim_back(s.subrange(a as int, b as int)),
            decreases b - a,
        {
            assert(s.subrange(a as int, b as int).drop_last() =~= s.subrange(a as int, b - 1));
            b = b - 1;
        }
        assert(trimmed(line) == s.subrange(a as int, b as int));
        let ghost before = out@;
        if a < b {
            if !out.as_str().is_empty() {
                out.append(" ");
            }
            out.append(text.substring_char(a, b));
        }
        assert(out@ =~= spaced(before, trimmed(line)));
        if e < n {
            i = e + 1;
        } else {
            i = n;
            assert(flattened_from(s, e + 1, out@) == out@);
        }
    }
    out
}

/// What the sender of a pattern that is not accepted is told.
pub open spec fn regex_complaint(pattern: Seq<char>, detail: Seq<char>) -> Seq<char> {
    "SubscribedTopicRegex `"@ + pattern + "` is not a valid regular expression: "@ + detail + "."@
}

fn complaint(pattern: &str, detail: &str) -> (r: String)
    ensures
        r@ == regex_complaint(pattern@, detail@),
{
    let mut s = "SubscribedTopicRegex `".to_owned();
    s.append(pattern);
    s.append("` is not a valid regular expression: ");
    s.append(detail);
    s.append(".");
    s
}

/// Whether a pattern is accepted, given the error of compiling it: not where it names a flag out
/// of reach, nor where it does not compile.
pub open spec fn regex_check(pattern: Seq<char>, error: Option<Seq<char>>) -> Result<(), Seq<char>> {
    if unsupported_flag(pattern, 0, false) is Some {
        Err(regex_complaint(pattern, INVALID_PERL_OP@))
    } else if error is Some {
        Err(regex_complaint(pattern, flattened(error->0)))
    } else {
        Ok(())
    }
}

/// What a result stands for whose error is a text.
pub open spec fn text_result(r: Result<(), String>) -> Result<(), Seq<char>> {
    match r {
        Ok(_) => Ok(()),
        Err(e) => Err(e@),
    }
}

/// Whether a pattern is accepted, given the error of compiling it.
pub fn regex_verdict(pattern: &str, error: Option<String>) -> (r: Result<(), String>)
    ensures
        text_result(r) == regex_check(pattern@, opt_str(error)),
{
    if re2j_unsupported_inline_flag(pattern).is_some() {
        return Err(complaint(pattern, INVALID_PERL_OP));
    }
    match error {
        Some(text) => {
            let detail = flatten(text.as_str());
            Err(complaint(pattern, detail.as_str()))
        },
        None => Ok(()),
    }
}

/// Whether a topic pattern is accepted.
pub fn check_subscribed_topic_regex(pattern: &str) -> (r: Result<(), String>)
    ensures
        text_result(r) == regex_check(pattern@, regex_error(pattern@)),
{
    let error = pattern_error(pattern);
    regex_verdict(pattern, error)
}

} // verus!
