//! Which topic patterns are accepted.

use crate::regexes::{INVALID_PERL_OP, char_at, flattened, flattened_from, known_flag, line_end, not_flags, regex_check, regex_complaint, trimmed, unknown_flag, unsupported_flag, white};
use vstd::prelude::*;

verus! {

/// Whether the flags of a group that begin at `i` come to `c`, at `k`, through flags that are accepted.
pub open spec fn comes_to(s: Seq<char>, i: int, k: int, c: char) -> bool {
    &&& 0 <= i <= k < s.len()
    &&& s[k] == c
    &&& c != 'i' && c != 'm' && c != 's' && c != 'U' && c != '-' && c != ')' && c != ':'
    &&& forall|j: int| i <= j < k ==> #[trigger] s[j] == 'i' || s[j] == 'm' || s[j] == 's' || s[j] == 'U' || s[j] == '-'
}

proof fn unknown_is_first(s: Seq<char>, i: int)
    requires
        0 <= i,
    ensures
        unknown_flag(s, i) is Some ==> exists|k: int| #[trigger] comes_to(s, i, k, unknown_flag(s, i)->0),
        forall|k: int, c: char| #[trigger] comes_to(s, i, k, c) ==> unknown_flag(s, i) == Some(c),
    decreases s.len() - i,
{
    if i < s.len() && s[i] != ')' && s[i] != ':' {
        if known_flag(s[i]) {
            unknown_is_first(s, i + 1);
            if unknown_flag(s, i) is Some {
                let c = unknown_flag(s, i)->0;
                let k = choose|k: int| #[trigger] comes_to(s, i + 1, k, c);
                assert(comes_to(s, i, k, c));
            }
            assert forall|k: int, c: char| #[trigger] comes_to(s, i, k, c) implies unknown_flag(s, i) == Some(c) by {
                assert(k != i);
                assert(comes_to(s, i + 1, k, c));
            }
        } else {
            assert(comes_to(s, i, i, s[i]));
            assert forall|k: int, c: char| #[trigger] comes_to(s, i, k, c) implies unknown_flag(s, i) == Some(c) by {
                if k > i {
                    assert(s[i] == 'i' || s[i] == 'm' || s[i] == 's' || s[i] == 'U' || s[i] == '-');
                }
            }
        }
    } else {
        assert forall|k: int, c: char| #[trigger] comes_to(s, i, k, c) implies unknown_flag(s, i) == Some(c) by {
            if k > i {
                assert(s[i] == 'i' || s[i] == 'm' || s[i] == 's' || s[i] == 'U' || s[i] == '-');
            }
        }
    }
}

/// A pattern is refused for a flag only where it has one that is not accepted: in a group of inline flags, behind
/// flags that are.
pub proof fn refused_flag_stands_in_the_pattern(s: Seq<char>, i: int, in_class: bool)
    requires
        0 <= i,
        unsupported_flag(s, i, in_class) is Some,
    ensures
        exists|a: int, k: int|
            i <= a && a + 2 < s.len() && s[a] == '(' && #[trigger] s[a + 1] == '?' && #[trigger] comes_to(s, a + 2, k, unsupported_flag(s, i, in_class)->0),
    decreases s.len() - i,
{
    let c = unsupported_flag(s, i, in_class)->0;
    let here = s[i] != '\\' && !in_class && s[i] != '[' && s[i] == '(' && char_at(s, i + 1) == Some('?') && !not_flags(char_at(s, i + 2))
        && unknown_flag(s, i + 2) is Some;
    if here {
        unknown_is_first(s, i + 2);
        let k = choose|k: int| #[trigger] comes_to(s, i + 2, k, c);
        assert(s[i + 1] == '?' && comes_to(s, i + 2, k, c));
    } else {
        let next = if s[i] == '\\' {
            i + 2
        } else {
            i + 1
        };
        let inside = if s[i] == '\\' {
            in_class
        } else if in_class {
            s[i] != ']'
        } else {
            s[i] == '['
        };
        assert(unsupported_flag(s, next, inside) == Some(c));
        refused_flag_stands_in_the_pattern(s, next, inside);
        let (a, k) = choose|a: int, k: int|
            next <= a && a + 2 < s.len() && s[a] == '(' && #[trigger] s[a + 1] == '?' && #[trigger] comes_to(s, a + 2, k, c);
        assert(s[a + 1] == '?' && comes_to(s, a + 2, k, c));
    }
}

/// A group of inline flags is refused wherever it stands behind characters that are neither escapes nor brackets:
/// for its first flag that is not accepted. What begins a named or a plain group, or a look around, is
/// no flag.
pub proof fn group_with_unknown_flag_is_refused(s: Seq<char>, from: int, a: int, k: int, c: char)
    requires
        0 <= from <= a,
        a + 2 < s.len(),
        forall|j: int| from <= j < a ==> #[trigger] s[j] != '\\' && s[j] != '[' && s[j] != '(',
        s[a] == '(',
        s[a + 1] == '?',
        s[a + 2] != 'P' && s[a + 2] != ':' && s[a + 2] != '<' && s[a + 2] != '\'' && s[a + 2] != '=' && s[a + 2] != '!',
        comes_to(s, a + 2, k, c),
    ensures
        unsupported_flag(s, from, false) == Some(c),
    decreases a - from,
{
    if from == a {
        unknown_is_first(s, a + 2);
    } else {
        assert(s[from] != '\\' && s[from] != '[' && s[from] != '(');
        group_with_unknown_flag_is_refused(s, from + 1, a, k, c);
    }
}

/// A pattern is accepted exactly where it has no flag that is not, and compiles. Whoever sends another is told the
/// pattern, and why.
pub proof fn accepted_pattern_compiles(pattern: Seq<char>, error: Option<Seq<char>>)
    ensures
        regex_check(pattern, error) is Ok <==> unsupported_flag(pattern, 0, false) is None && error is None,
        regex_check(pattern, error) is Err ==> ({
            let told = regex_check(pattern, error)->Err_0;
            let why = if unsupported_flag(pattern, 0, false) is Some {
                "invalid or unsupported Perl syntax"@
            } else {
                flattened(error->0)
            };
            told == "SubscribedTopicRegex `"@ + pattern + "` is not a valid regular expression: "@ + why + "."@
        }),
{
}

proof fn line_ends_at(s: Seq<char>, i: int, e: int)
    requires
        0 <= i <= e <= s.len(),
        forall|k: int| i <= k < e ==> s[k] != '\n',
        e == s.len() || s[e] == '\n',
    ensures
        line_end(s, i) == e,
    decreases e - i,
{
    if i < e {
        line_ends_at(s, i + 1, e);
    }
}

proof fn plain_is_trimmed(s: Seq<char>)
    requires
        s.len() > 0 ==> !white(s[0]) && !white(s.last()),
    ensures
        trimmed(s) == s,
{
}

proof fn blank_lines_are_skipped(s: Seq<char>, i: int, e: int, before: Seq<char>)
    requires
        0 <= i <= e <= s.len(),
        forall|k: int| i <= k < e ==> s[k] == '\n',
    ensures
        flattened_from(s, i, before) == flattened_from(s, e, before),
    decreases e - i,
{
    if i < e {
        line_ends_at(s, i, i);
        assert(s.subrange(i, i) =~= seq![]);
        plain_is_trimmed(s.subrange(i, i));
        blank_lines_are_skipped(s, i + 1, e, before);
    }
}

/// The words of a complaint that stands on several lines are told on one, a space between: lines that hold no whitespace
/// of their own come out as they are, whatever number of line breaks stands between them.
pub proof fn complaint_is_told_on_one_line(a: Seq<char>, breaks: Seq<char>, b: Seq<char>)
    requires
        a.len() > 0,
        b.len() > 0,
        breaks.len() > 0,
        forall|k: int| 0 <= k < a.len() ==> !white(#[trigger] a[k]),
        forall|k: int| 0 <= k < b.len() ==> !white(#[trigger] b[k]),
        forall|k: int| 0 <= k < breaks.len() ==> #[trigger] breaks[k] == '\n',
    ensures
        flattened(a + breaks + b) == a + " "@ + b,
{
    let s = a + breaks + b;
    let n = a.len() as int;
    let m = n + breaks.len();
    assert forall|k: int| 0 <= k < n implies s[k] != '\n' by {
        assert(s[k] == a[k]);
        assert(!white(a[k]));
    }
    assert(s[n] == breaks[0]);
    line_ends_at(s, 0, n);
    assert(s.subrange(0, n) =~= a);
    assert(!white(a[0]) && !white(a[n - 1]));
    plain_is_trimmed(a);
    assert(flattened(s) == flattened_from(s, n + 1, a));
    assert forall|k: int| n + 1 <= k < m implies s[k] == '\n' by {
        assert(s[k] == breaks[k - n]);
    }
    blank_lines_are_skipped(s, n + 1, m, a);
    assert forall|k: int| m <= k < s.len() implies s[k] != '\n' by {
        assert(s[k] == b[k - m]);
        assert(!white(b[k - m]));
    }
    line_ends_at(s, m, s.len() as int);
    assert(s.subrange(m, s.len() as int) =~= b);
    assert(!white(b[0]) && !white(b[b.len() - 1]));
    plain_is_trimmed(b);
    assert(flattened_from(s, s.len() as int + 1, a + " "@ + b) == a + " "@ + b);
}

} // verus!
