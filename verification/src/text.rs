//! Characters and strings: what the standard library does on them, under
//! names and contracts that the rest of the library can reason with, and
//! the small text operations built on top.

use vstd::prelude::*;

verus! {

/// The lower-case form of a text, as `str::to_lowercase` gives it.
pub uninterp spec fn lowercase(s: Seq<char>) -> Seq<char>;

/// Whether a character is white space: one of the 25 characters that have
/// the Unicode property White_Space. They are the tab, the line feed, the
/// vertical tab, the form feed and the carriage return, the space, the next
/// line control, the no-break space, the Ogham space mark, the spaces of
/// fixed width from the en quad to the hair space, the line and paragraph
/// separators, the narrow no-break space, the medium mathematical space and
/// the ideographic space.
pub open spec fn white_space(c: char) -> bool {
    let v = c as u32;
    ||| 0x09 <= v <= 0x0D
    ||| v == 0x20
    ||| v == 0x85
    ||| v == 0xA0
    ||| v == 0x1680
    ||| 0x2000 <= v <= 0x200A
    ||| 0x2028 <= v <= 0x2029
    ||| v == 0x202F
    ||| v == 0x205F
    ||| v == 0x3000
}

/// Calls `str::to_lowercase`. Trusted: the result is the lower-case form of
/// `s`, which depends on the characters of `s` alone.
#[verifier::external_body]
pub(crate) fn to_lower(s: &str) -> (r: String)
    ensures
        r@ == lowercase(s@),
{
    s.to_lowercase()
}

/// Tells whether `c` is white space.
pub fn is_space(c: char) -> (b: bool)
    ensures
        b == white_space(c),
{
    let v: u32 = c as u32;
    (0x09 <= v && v <= 0x0D) || v == 0x20 || v == 0x85 || v == 0xA0 || v == 0x1680 || (0x2000 <= v
        && v <= 0x200A) || v == 0x2028 || v == 0x2029 || v == 0x202F || v == 0x205F || v
        == 0x3000
}

/// Calls `String::push`. Trusted: `c` is appended and nothing else changes.
#[verifier::external_body]
pub(crate) fn push_char(s: &mut String, c: char)
    ensures
        final(s)@ == old(s)@.push(c),
{
    s.push(c)
}

/// Calls `String::pop`. Trusted: the last character is removed and
/// returned; an empty string stays empty and gives `None`.
#[verifier::external_body]
pub(crate) fn pop_char(s: &mut String) -> (c: Option<char>)
    ensures
        old(s)@.len() == 0 ==> c is None && final(s)@ == old(s)@,
        old(s)@.len() > 0 ==> c == Some(old(s)@.last()) && final(s)@ == old(s)@.drop_last(),
{
    s.pop()
}

/// The characters of `s`, in order.
pub fn chars_of(s: &str) -> (v: Vec<char>)
    ensures
        v@ == s@,
{
    let mut v: Vec<char> = Vec::new();
    for c in it: s.chars()
        invariant
            it.seq() == s@,
            v@ == it.seq().take(it.index()),
    {
        v.push(c);
    }
    v
}

/// The string made of the characters of `chars` from `from` up to `to`.
pub(crate) fn string_of(chars: &[char], from: usize, to: usize) -> (s: String)
    requires
        from <= to <= chars@.len(),
    ensures
        s@ == chars@.subrange(from as int, to as int),
{
    let mut s = String::new();
    let mut i: usize = from;
    while i < to
        invariant
            from <= i <= to <= chars@.len(),
            s@ == chars@.subrange(from as int, i as int),
        decreases to - i,
    {
        push_char(&mut s, chars[i]);
        assert(chars@.subrange(from as int, i + 1) == chars@.subrange(from as int, i as int).push(
            chars@[i as int],
        ));
        i = i + 1;
    }
    s
}

/// How many of the first flags are set, up to the first that is not.
pub open spec fn leading_run(flags: Seq<bool>) -> nat
    decreases flags.len(),
{
    if flags.len() == 0 || !flags[0] {
        0
    } else {
        1 + leading_run(flags.drop_first())
    }
}

/// How many of the last flags are set, back to the last that is not.
pub open spec fn trailing_run(flags: Seq<bool>) -> nat
    decreases flags.len(),
{
    if flags.len() == 0 || !flags.last() {
        0
    } else {
        1 + trailing_run(flags.drop_last())
    }
}

/// Where the part of a text begins that is left when the marked characters
/// at its beginning are taken away.
pub open spec fn kept_from(flags: Seq<bool>) -> int {
    leading_run(flags) as int
}

/// Where the part of a text ends that is left when the marked characters at
/// its beginning, and then those at its end, are taken away.
pub open spec fn kept_to(flags: Seq<bool>) -> int {
    flags.len() - trailing_run(flags.skip(kept_from(flags)))
}

/// For each character of `s`, whether it is white space.
pub open spec fn space_flags(s: Seq<char>) -> Seq<bool> {
    s.map_values(|c: char| white_space(c))
}

/// `s` without the white space it begins and ends with.
pub open spec fn trimmed(s: Seq<char>) -> Seq<char> {
    s.subrange(kept_from(space_flags(s)), kept_to(space_flags(s)))
}

/// The flags counted at the beginning are set, fit in `flags`, and are
/// followed by one that is not set or by the end.
pub proof fn lemma_leading_run(flags: Seq<bool>)
    ensures
        leading_run(flags) <= flags.len(),
        forall|t: int| 0 <= t < leading_run(flags) ==> flags[t],
        leading_run(flags) < flags.len() ==> !flags[leading_run(flags) as int],
    decreases flags.len(),
{
    if !(flags.len() == 0 || !flags[0]) {
        let rest = flags.drop_first();
        lemma_leading_run(rest);
        assert forall|t: int| 0 <= t < leading_run(flags) implies flags[t] by {
            if t > 0 {
                assert(flags[t] == rest[t - 1]);
            }
        }
        if leading_run(flags) < flags.len() {
            assert(flags[leading_run(flags) as int] == rest[leading_run(rest) as int]);
        }
    }
}

/// The same of the flags counted at the end.
pub proof fn lemma_trailing_run(flags: Seq<bool>)
    ensures
        trailing_run(flags) <= flags.len(),
        forall|t: int| flags.len() - trailing_run(flags) <= t < flags.len() ==> flags[t],
        trailing_run(flags) < flags.len() ==> !flags[flags.len() - trailing_run(flags) - 1],
    decreases flags.len(),
{
    if !(flags.len() == 0 || !flags.last()) {
        let rest = flags.drop_last();
        lemma_trailing_run(rest);
        assert forall|t: int| flags.len() - trailing_run(flags) <= t < flags.len() implies flags[t] by {
            if t < flags.len() - 1 {
                assert(flags[t] == rest[t]);
            }
        }
        if trailing_run(flags) < flags.len() {
            assert(flags[flags.len() - trailing_run(flags) - 1] == rest[rest.len() - trailing_run(
                rest,
            ) - 1]);
        }
    }
}

/// `k` set flags, and then one that is not set or the end, are all the set
/// flags that `flags` begins with.
proof fn lemma_leading_run_is(flags: Seq<bool>, k: int)
    requires
        0 <= k <= flags.len(),
        forall|t: int| 0 <= t < k ==> flags[t],
        k < flags.len() ==> !flags[k],
    ensures
        leading_run(flags) == k,
    decreases flags.len(),
{
    if k > 0 {
        let rest = flags.drop_first();
        assert forall|t: int| 0 <= t < k - 1 implies rest[t] by {
            assert(rest[t] == flags[t + 1]);
        }
        lemma_leading_run_is(rest, k - 1);
    }
}

/// The same from the end.
proof fn lemma_trailing_run_is(flags: Seq<bool>, k: int)
    requires
        0 <= k <= flags.len(),
        forall|t: int| flags.len() - k <= t < flags.len() ==> flags[t],
        k < flags.len() ==> !flags[flags.len() - k - 1],
    ensures
        trailing_run(flags) == k,
    decreases flags.len(),
{
    if k > 0 {
        let rest = flags.drop_last();
        assert forall|t: int| rest.len() - (k - 1) <= t < rest.len() implies rest[t] by {
            assert(rest[t] == flags[t]);
        }
        lemma_trailing_run_is(rest, k - 1);
    }
}

/// A trimmed text is a part of the text it was made from, neither begins
/// nor ends with white space, and leaves out nothing but white space.
pub proof fn lemma_trimmed(s: Seq<char>)
    ensures
        0 <= kept_from(space_flags(s)) <= kept_to(space_flags(s)) <= s.len(),
        trimmed(s).len() > 0 ==> !white_space(trimmed(s).first()) && !white_space(
            trimmed(s).last(),
        ),
        forall|t: int| 0 <= t < kept_from(space_flags(s)) ==> white_space(#[trigger] s[t]),
        forall|t: int| kept_to(space_flags(s)) <= t < s.len() ==> white_space(#[trigger] s[t]),
{
    let flags = space_flags(s);
    lemma_leading_run(flags);
    let from = kept_from(flags);
    let rest = flags.skip(from);
    lemma_trailing_run(rest);
    let to = kept_to(flags);
    assert forall|t: int| 0 <= t < from implies white_space(#[trigger] s[t]) by {
        assert(flags[t]);
    }
    assert forall|t: int| to <= t < s.len() implies white_space(#[trigger] s[t]) by {
        assert(rest[t - from]);
        assert(flags[t]);
    }
    if trimmed(s).len() > 0 {
        assert(trimmed(s).first() == s[from]);
        assert(!flags[from]);
        assert(trimmed(s).last() == s[to - 1]);
        assert(rest[to - 1 - from] == flags[to - 1]);
    }
}

/// A text that is empty, or that neither begins nor ends with white space,
/// is its own trimmed form.
pub proof fn lemma_trimmed_unchanged(s: Seq<char>)
    requires
        s.len() > 0 ==> !white_space(s.first()) && !white_space(s.last()),
    ensures
        trimmed(s) == s,
{
    let flags = space_flags(s);
    if s.len() > 0 {
        assert(!flags[0]);
        assert(!flags.last());
        assert(flags.skip(0) =~= flags);
    } else {
        assert(flags.skip(0) =~= flags);
    }
    assert(trimmed(s) =~= s);
}

/// The part that is left of a text when the marked characters at its
/// beginning, and then those at its end, are taken away: where it begins
/// and where it ends. `flags` marks the characters, one flag for each.
pub fn kept_range(flags: &[bool]) -> (r: (usize, usize))
    ensures
        r.0 == kept_from(flags@),
        r.1 == kept_to(flags@),
        r.0 <= r.1 <= flags@.len(),
{
    let n = flags.len();
    let mut start: usize = 0;
    while start < n && flags[start]
        invariant
            start <= n,
            n == flags@.len(),
            forall|t: int| 0 <= t < start ==> flags@[t],
        decreases n - start,
    {
        start = start + 1;
    }
    let mut end: usize = n;
    while end > start && flags[end - 1]
        invariant
            start <= end <= n,
            n == flags@.len(),
            forall|t: int| end <= t < n ==> flags@[t],
        decreases end,
    {
        end = end - 1;
    }
    proof {
        lemma_leading_run_is(flags@, start as int);
        let rest = flags@.skip(start as int);
        assert forall|t: int| rest.len() - (n - end) <= t < rest.len() implies rest[t] by {
            assert(rest[t] == flags@[t + start]);
        }
        if n - end < rest.len() {
            assert(rest[rest.len() - (n - end) - 1] == flags@[end - 1]);
        }
        lemma_trailing_run_is(rest, n - end);
    }
    (start, end)
}

/// `s` without the white space at its two ends.
pub fn trim(s: &str) -> (r: String)
    ensures
        r@ == trimmed(s@),
{
    let chars = chars_of(s);
    let mut flags: Vec<bool> = Vec::new();
    let mut i: usize = 0;
    while i < chars.len()
        invariant
            i <= chars@.len(),
            flags@ == space_flags(chars@.take(i as int)),
        decreases chars@.len() - i,
    {
        flags.push(is_space(chars[i]));
        assert(space_flags(chars@.take(i + 1)) =~= space_flags(chars@.take(i as int)).push(
            white_space(chars@[i as int]),
        ));
        i = i + 1;
    }
    assert(chars@.take(chars@.len() as int) =~= chars@);
    let (from, to) = kept_range(flags.as_slice());
    string_of(chars.as_slice(), from, to)
}

/// Whether `s` ends with the characters of `suffix`.
pub open spec fn ends_with(s: Seq<char>, suffix: Seq<char>) -> bool {
    suffix.len() <= s.len() && s.subrange(s.len() - suffix.len(), s.len() as int) == suffix
}

/// Tells whether `s` ends with `suffix`.
pub fn has_suffix(s: &[char], suffix: &[char]) -> (b: bool)
    ensures
        b == ends_with(s@, suffix@),
{
    let n = s.len();
    let m = suffix.len();
    if m > n {
        return false;
    }
    let mut i: usize = 0;
    while i < m
        invariant
            i <= m <= n,
            n == s@.len(),
            m == suffix@.len(),
            forall|t: int| 0 <= t < i ==> s@[n - m + t] == suffix@[t],
        decreases m - i,
    {
        if s[n - m + i] != suffix[i] {
            assert(s@.subrange(n - m, n as int)[i as int] != suffix@[i as int]);
            return false;
        }
        i = i + 1;
    }
    assert(s@.subrange(n - m, n as int) =~= suffix@);
    true
}

} // verus!
