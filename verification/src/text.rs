//! Character-level helpers for reading hotkey descriptions.

use vstd::prelude::*;
use vstd::std_specs::iter::IteratorSpec;

verus! {

/// Whether `c` counts as whitespace around a token.
pub open spec fn is_space(c: char) -> bool {
    let n = c as u32;
    (0x09 <= n && n <= 0x0d) || n == 0x20 || n == 0x85 || n == 0xa0 || n == 0x1680
        || (0x2000 <= n && n <= 0x200a) || n == 0x2028 || n == 0x2029 || n == 0x202f
        || n == 0x205f || n == 0x3000
}

/// The upper-case form of an ASCII letter; every other character is itself.
pub open spec fn upper_char(c: char) -> char {
    if 'a' <= c && c <= 'z' {
        ((c as u8) - 32) as u8 as char
    } else {
        c
    }
}

pub fn is_space_char(c: char) -> (r: bool)
    ensures
        r == is_space(c),
{
    let n: u32 = c as u32;
    (0x09 <= n && n <= 0x0d) || n == 0x20 || n == 0x85 || n == 0xa0 || n == 0x1680
        || (0x2000 <= n && n <= 0x200a) || n == 0x2028 || n == 0x2029 || n == 0x202f
        || n == 0x205f || n == 0x3000
}

pub fn to_upper_char(c: char) -> (r: char)
    ensures
        r == upper_char(c),
{
    if 'a' <= c && c <= 'z' {
        let b: u8 = c as u8;
        (b - 32) as char
    } else {
        c
    }
}


/// `s` with every ASCII letter in upper case.
pub open spec fn upper(s: Seq<char>) -> Seq<char> {
    Seq::new(s.len(), |i: int| upper_char(s[i]))
}

/// `s` without its leading whitespace.
pub open spec fn trim_start(s: Seq<char>) -> Seq<char>
    decreases s.len(),
{
    if s.len() > 0 && is_space(s[0]) {
        trim_start(s.drop_first())
    } else {
        s
    }
}

/// `s` without its trailing whitespace.
pub open spec fn trim_end(s: Seq<char>) -> Seq<char>
    decreases s.len(),
{
    if s.len() > 0 && is_space(s.last()) {
        trim_end(s.drop_last())
    } else {
        s
    }
}

/// `s` without the whitespace at either end.
pub open spec fn trim(s: Seq<char>) -> Seq<char> {
    trim_end(trim_start(s))
}

/// The pieces of `s` between its `+` signs, in order. There is always one
/// piece more than there are `+` signs, and a piece may be empty.
pub open spec fn split_plus(s: Seq<char>) -> Seq<Seq<char>>
    decreases s.len(),
{
    if s.len() == 0 {
        seq![Seq::<char>::empty()]
    } else {
        let head = split_plus(s.drop_last());
        if s.last() == '+' {
            head.push(Seq::<char>::empty())
        } else {
            head.drop_last().push(head.last().push(s.last()))
        }
    }
}

/// The contents of each vector of `v`.
pub open spec fn views(v: Seq<Vec<char>>) -> Seq<Seq<char>> {
    Seq::new(v.len(), |i: int| v[i]@)
}

/// Leading whitespace ends at the first character that is none.
pub proof fn lemma_trim_start(s: Seq<char>, k: int)
    requires
        0 <= k <= s.len(),
        forall|i: int| 0 <= i < k ==> is_space(s[i]),
        k == s.len() || !is_space(s[k]),
    ensures
        trim_start(s) == s.subrange(k, s.len() as int),
    decreases k,
{
    if k == 0 {
        assert(s.subrange(0, s.len() as int) =~= s);
    } else {
        let rest = s.drop_first();
        assert forall|i: int| 0 <= i < k - 1 implies is_space(rest[i]) by {
            assert(rest[i] == s[i + 1]);
        }
        lemma_trim_start(rest, k - 1);
        assert(rest.subrange(k - 1, rest.len() as int) =~= s.subrange(k, s.len() as int));
    }
}

/// Trailing whitespace starts after the last character that is none.
pub proof fn lemma_trim_end(s: Seq<char>, k: int)
    requires
        0 <= k <= s.len(),
        forall|i: int| k <= i < s.len() ==> is_space(s[i]),
        k == 0 || !is_space(s[k - 1]),
    ensures
        trim_end(s) == s.subrange(0, k),
    decreases s.len() - k,
{
    if k == s.len() {
        assert(s.subrange(0, k) =~= s);
    } else {
        let rest = s.drop_last();
        lemma_trim_end(rest, k);
        assert(rest.subrange(0, k) =~= s.subrange(0, k));
    }
}

/// `String::push` of the standard library: trusted to append the character
/// at the end of the string and to change nothing else.
pub assume_specification[ String::push ](s: &mut String, ch: char)
    ensures
        final(s)@ == old(s)@.push(ch),
;

/// The text that `chars` spell.
pub fn text_of(chars: &Vec<char>) -> (r: String)
    ensures
        r@ == chars@,
{
    let mut out = String::new();
    let mut i: usize = 0;
    while i < chars.len()
        invariant
            i <= chars.len(),
            out@ == chars@.take(i as int),
        decreases chars.len() - i,
    {
        out.push(chars[i]);
        assert(out@ =~= chars@.take(i + 1));
        i += 1;
    }
    assert(chars@.take(i as int) =~= chars@);
    out
}

/// Whether `chars` spell exactly `name`.
pub fn spells(chars: &Vec<char>, name: &str) -> (r: bool)
    ensures
        r == (chars@ == name@),
{
    let n = name.unicode_len();
    if chars.len() != n {
        return false;
    }
    let mut i: usize = 0;
    while i < n
        invariant
            n == name@.len(),
            n == chars.len(),
            i <= n,
            forall|j: int| 0 <= j < i ==> chars@[j] == name@[j],
        decreases n - i,
    {
        if chars[i] != name.get_char(i) {
            return false;
        }
        i += 1;
    }
    assert(chars@ =~= name@);
    true
}

/// Copies `text` into a vector, with every ASCII letter in upper case.
pub fn upper_chars(text: &str) -> (r: Vec<char>)
    ensures
        r@ == upper(text@),
{
    let mut out: Vec<char> = Vec::new();
    let mut rest = text.chars();
    let ghost mut seen: int = 0;
    assert(text@.skip(0) =~= text@);
    assert(out@ =~= upper(text@.take(0)));
    loop
        invariant
            0 <= seen <= text@.len(),
            rest.remaining() == text@.skip(seen),
            out@ == upper(text@.take(seen)),
        ensures
            out@ == upper(text@),
        decreases text@.len() - seen,
    {
        match rest.next() {
            Some(c) => {
                out.push(to_upper_char(c));
                proof {
                    assert(text@.skip(seen)[0] == text@[seen]);
                    assert(text@.skip(seen).drop_first() =~= text@.skip(seen + 1));
                    assert(out@ =~= upper(text@.take(seen + 1)));
                    seen = seen + 1;
                }
            },
            None => {
                assert(text@.skip(seen).len() == 0);
                assert(text@.take(seen) =~= text@);
                break ;
            },
        }
    }
    out
}

/// The part of `chars` between its leading and its trailing whitespace.
pub fn trim_chars(chars: &Vec<char>) -> (r: Vec<char>)
    ensures
        r@ == trim(chars@),
{
    let n = chars.len();
    let mut start: usize = 0;
    while start < n && is_space_char(chars[start])
        invariant
            n == chars.len(),
            start <= n,
            forall|i: int| 0 <= i < start ==> is_space(chars@[i]),
        decreases n - start,
    {
        start += 1;
    }
    let mut end: usize = n;
    while end > start && is_space_char(chars[end - 1])
        invariant
            n == chars.len(),
            start <= end <= n,
            forall|i: int| end <= i < n ==> is_space(chars@[i]),
        decreases end,
    {
        end -= 1;
    }
    let ghost tail = chars@.subrange(start as int, n as int);
    proof {
        lemma_trim_start(chars@, start as int);
        assert forall|i: int| end - start <= i < tail.len() implies is_space(tail[i]) by {
            assert(tail[i] == chars@[i + start]);
        }
        if end > start {
            assert(tail[end - start - 1] == chars@[end - 1]);
        }
        lemma_trim_end(tail, end - start);
        assert(tail.subrange(0, end - start) =~= chars@.subrange(start as int, end as int));
    }
    let mut out: Vec<char> = Vec::new();
    let mut i: usize = start;
    while i < end
        invariant
            start <= i <= end <= chars.len(),
            out@ == chars@.subrange(start as int, i as int),
        decreases end - i,
    {
        out.push(chars[i]);
        assert(out@ =~= chars@.subrange(start as int, i + 1));
        i += 1;
    }
    out
}

/// Cuts `chars` at every `+` sign.
pub fn split_chars(chars: &Vec<char>) -> (r: Vec<Vec<char>>)
    ensures
        views(r@) == split_plus(chars@),
{
    let mut done: Vec<Vec<char>> = Vec::new();
    let mut current: Vec<char> = Vec::new();
    let mut i: usize = 0;
    assert(chars@.take(0) =~= Seq::<char>::empty());
    assert(views(done@).push(current@) =~= seq![Seq::<char>::empty()]);
    while i < chars.len()
        invariant
            i <= chars.len(),
            views(done@).push(current@) == split_plus(chars@.take(i as int)),
        decreases chars.len() - i,
    {
        let c = chars[i];
        let ghost head = views(done@).push(current@);
        proof {
            let next = chars@.take(i + 1);
            assert(next.drop_last() =~= chars@.take(i as int));
            assert(next.last() == c);
        }
        if c == '+' {
            done.push(current);
            current = Vec::new();
            assert(views(done@).push(current@) =~= head.push(Seq::<char>::empty()));
        } else {
            current.push(c);
            assert(views(done@).push(current@) =~= head.drop_last().push(head.last().push(c)));
        }
        i += 1;
    }
    assert(chars@.take(i as int) =~= chars@);
    let ghost head = views(done@).push(current@);
    done.push(current);
    assert(views(done@) =~= head);
    done
}

/// The number of whitespace characters at the start of `s`.
pub open spec fn leading_spaces(s: Seq<char>) -> nat
    decreases s.len(),
{
    if s.len() > 0 && is_space(s[0]) {
        1 + leading_spaces(s.drop_first())
    } else {
        0
    }
}

/// `trim_start` drops exactly the leading whitespace.
pub proof fn lemma_leading_spaces(s: Seq<char>)
    ensures
        leading_spaces(s) <= s.len(),
        forall|i: int| 0 <= i < leading_spaces(s) ==> is_space(s[i]),
        leading_spaces(s) == s.len() || !is_space(s[leading_spaces(s) as int]),
        trim_start(s) == s.subrange(leading_spaces(s) as int, s.len() as int),
    decreases s.len(),
{
    if s.len() > 0 && is_space(s[0]) {
        let rest = s.drop_first();
        lemma_leading_spaces(rest);
        let k = leading_spaces(s);
        assert forall|i: int| 0 <= i < k implies is_space(s[i]) by {
            if i > 0 {
                assert(s[i] == rest[i - 1]);
            }
        }
        if k < s.len() {
            assert(s[k as int] == rest[k - 1]);
        }
    }
    lemma_trim_start(s, leading_spaces(s) as int);
}

/// Trimming the end never removes a character that is no whitespace.
pub proof fn lemma_trim_end_keeps_start(s: Seq<char>)
    requires
        s.len() > 0,
        !is_space(s[0]),
    ensures
        trim_end(s).len() > 0,
    decreases s.len(),
{
    if is_space(s.last()) {
        assert(s.len() > 1);
        assert(s.drop_last()[0] == s[0]);
        lemma_trim_end_keeps_start(s.drop_last());
    }
}

/// Text without a `+` sign is one piece.
pub proof fn lemma_split_without_plus(s: Seq<char>)
    requires
        forall|i: int| 0 <= i < s.len() ==> s[i] != '+',
    ensures
        split_plus(s) == seq![s],
    decreases s.len(),
{
    if s.len() > 0 {
        let head = s.drop_last();
        assert forall|i: int| 0 <= i < head.len() implies head[i] != '+' by {
            assert(head[i] == s[i]);
        }
        lemma_split_without_plus(head);
        assert(head.push(s.last()) =~= s);
        assert(seq![head].drop_last().push(seq![head].last().push(s.last())) =~= seq![s]);
    } else {
        assert(s =~= Seq::<char>::empty());
    }
}

/// Text that trims to nothing is whitespace throughout, so it is one piece,
/// and that piece trims to nothing.
pub proof fn lemma_blank_is_one_empty_token(s: Seq<char>)
    requires
        trim(s).len() == 0,
    ensures
        forall|i: int| 0 <= i < s.len() ==> is_space(s[i]),
        split_plus(s) == seq![s],
{
    lemma_leading_spaces(s);
    let k = leading_spaces(s) as int;
    let tail = s.subrange(k, s.len() as int);
    if k < s.len() {
        assert(tail[0] == s[k]);
        lemma_trim_end_keeps_start(tail);
    }
    assert(!is_space('+'));
    lemma_split_without_plus(s);
}

} // verus!
