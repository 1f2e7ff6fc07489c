//! Test skips that a runner can find, and the decision whether a REQUIRE
//! variable arms a skip into a failure.
//!
//! A variable's value arms when, trimmed of Unicode whitespace and compared
//! without regard to ASCII case, it is `1`, `true`, `yes` or `on`; it does not
//! arm when it is empty, `0`, `false`, `no` or `off`, or when the variable is
//! unset.  Any other value is not recognised.

use vstd::prelude::*;
use vstd::string::*;
use crate::text::chars_of;

verus! {

broadcast use vstd::string::group_string_axioms;

/// The fixed marker every skip notice carries: printable ASCII without
/// whitespace or quotes.
pub const NOTICE_TOKEN: &'static str = "LIGHTBULB-SKIP";

/// Unicode `White_Space`, which `str::trim` removes.
pub open spec fn is_unicode_ws(c: char) -> bool {
    ||| '\u{9}' <= c <= '\u{d}'
    ||| c == ' '
    ||| c == '\u{85}'
    ||| c == '\u{a0}'
    ||| c == '\u{1680}'
    ||| '\u{2000}' <= c <= '\u{200a}'
    ||| c == '\u{2028}'
    ||| c == '\u{2029}'
    ||| c == '\u{202f}'
    ||| c == '\u{205f}'
    ||| c == '\u{3000}'
}

/// `s` without its leading whitespace.
pub open spec fn trim_front(s: Seq<char>) -> Seq<char>
    decreases s.len(),
{
    if s.len() > 0 && is_unicode_ws(s[0]) {
        trim_front(s.drop_first())
    } else {
        s
    }
}

/// `s` without its trailing whitespace.
pub open spec fn trim_back(s: Seq<char>) -> Seq<char>
    decreases s.len(),
{
    if s.len() > 0 && is_unicode_ws(s.last()) {
        trim_back(s.drop_last())
    } else {
        s
    }
}

/// `s` trimmed at both ends.
pub open spec fn trimmed(s: Seq<char>) -> Seq<char> {
    trim_back(trim_front(s))
}

/// The code of `c` after ASCII lowercasing.
pub open spec fn lower_code(c: char) -> u32 {
    if 'A' <= c <= 'Z' {
        (c as u32 + 32) as u32
    } else {
        c as u32
    }
}

/// `t`, ASCII-lowercased, is the (lowercase) word `w`.
pub open spec fn is_word(t: Seq<char>, w: Seq<char>) -> bool {
    t.len() == w.len() && forall|i: int| 0 <= i < t.len() ==> lower_code(#[trigger] t[i]) == w[i] as u32
}

/// Whether a value arms (`Some(true)`), does not arm (`Some(false)`), or is
/// not recognised (`None`).
pub open spec fn arming_spec(raw: Seq<char>) -> Option<bool> {
    let t = trimmed(raw);
    if is_word(t, ""@) || is_word(t, "0"@) || is_word(t, "false"@) || is_word(t, "no"@) || is_word(
        t,
        "off"@,
    ) {
        Some(false)
    } else if is_word(t, "1"@) || is_word(t, "true"@) || is_word(t, "yes"@) || is_word(t, "on"@) {
        Some(true)
    } else {
        None
    }
}

fn is_ws(c: char) -> (r: bool)
    ensures
        r == is_unicode_ws(c),
{
    ('\u{9}' <= c && c <= '\u{d}') || c == ' ' || c == '\u{85}' || c == '\u{a0}' || c == '\u{1680}'
        || ('\u{2000}' <= c && c <= '\u{200a}') || c == '\u{2028}' || c == '\u{2029}' || c
        == '\u{202f}' || c == '\u{205f}' || c == '\u{3000}'
}

/// Whether `s[from..to]`, ASCII-lowercased, is the lowercase word `w`.
fn span_is_word(s: &Vec<char>, from: usize, to: usize, w: &str) -> (r: bool)
    requires
        from <= to <= s@.len(),
    ensures
        r == is_word(s@.subrange(from as int, to as int), w@),
{
    let wv = chars_of(w);
    let ghost t = s@.subrange(from as int, to as int);
    if to - from != wv.len() {
        return false;
    }
    let mut i: usize = 0;
    while i < wv.len()
        invariant
            i <= wv@.len(),
            to - from == wv@.len(),
            from <= to <= s@.len(),
            t == s@.subrange(from as int, to as int),
            wv@ == w@,
            forall|j: int| 0 <= j < i ==> lower_code(#[trigger] t[j]) == wv@[j] as u32,
        decreases wv@.len() - i,
    {
        let c = s[from + i];
        assert(t[i as int] == c);
        let code: u32 = if 'A' <= c && c <= 'Z' {
            (c as u32) + 32
        } else {
            c as u32
        };
        if code != wv[i] as u32 {
            return false;
        }
        i = i + 1;
    }
    true
}

proof fn lemma_trim_front_step(s: Seq<char>, i: int)
    requires
        0 <= i < s.len(),
        is_unicode_ws(s[i]),
    ensures
        trim_front(s.subrange(i, s.len() as int)) == trim_front(s.subrange(i + 1, s.len() as int)),
{
    let a = s.subrange(i, s.len() as int);
    assert(a.drop_first() =~= s.subrange(i + 1, s.len() as int));
}

proof fn lemma_trim_back_step(s: Seq<char>, a: int, b: int)
    requires
        0 <= a < b <= s.len(),
        is_unicode_ws(s[b - 1]),
    ensures
        trim_back(s.subrange(a, b)) == trim_back(s.subrange(a, b - 1)),
{
    let t = s.subrange(a, b);
    assert(t.drop_last() =~= s.subrange(a, b - 1));
}

/// Whether a value arms, does not arm, or is not recognised.
pub fn parse_arming(raw: &str) -> (r: Option<bool>)
    ensures
        r == arming_spec(raw@),
{
    let s = chars_of(raw);
    let n = s.len();
    let mut a: usize = 0;
    assert(s@.subrange(0, n as int) =~= s@);
    while a < n && is_ws(s[a])
        invariant
            a <= n == s@.len(),
            trim_front(s@) == trim_front(s@.subrange(a as int, n as int)),
        decreases n - a,
    {
        proof {
            lemma_trim_front_step(s@, a as int);
        }
        a = a + 1;
    }
    assert(trim_front(s@.subrange(a as int, n as int)) == s@.subrange(a as int, n as int));
    let mut b: usize = n;
    while b > a && is_ws(s[b - 1])
        invariant
            a <= b <= n == s@.len(),
            trimmed(s@) == trim_back(s@.subrange(a as int, b as int)),
        decreases b - a,
    {
        proof {
            lemma_trim_back_step(s@, a as int, b as int);
        }
        b = b - 1;
    }
    assert(trim_back(s@.subrange(a as int, b as int)) == s@.subrange(a as int, b as int));
    if span_is_word(&s, a, b, "") || span_is_word(&s, a, b, "0") || span_is_word(&s, a, b, "false")
        || span_is_word(&s, a, b, "no") || span_is_word(&s, a, b, "off") {
        Some(false)
    } else if span_is_word(&s, a, b, "1") || span_is_word(&s, a, b, "true") || span_is_word(
        &s,
        a,
        b,
        "yes",
    ) || span_is_word(&s, a, b, "on") {
        Some(true)
    } else {
        None
    }
}

/// The arming decision over a variable's value: unset does not arm, a
/// recognised value arms as `parse_arming` says.  `var` names the variable
/// for the caller's messages.
pub fn armed_by(var: &str, value: Option<&str>) -> (r: bool)
    requires
        value matches Some(v) ==> arming_spec(v@) is Some,
    ensures
        match value {
            None => !r,
            Some(v) => r == arming_spec(v@)->0,
        },
{
    match value {
        None => false,
        Some(v) => match parse_arming(v) {
            Some(b) => b,
            None => false,
        },
    }
}

} // verus!
