//! Verified utilities over strings: character search, equality,
//! and splitting a text into its lines.
use vstd::prelude::*;

verus! {

/// Holds when no character of `s` is `c`.
pub open spec fn lacks_char(s: Seq<char>, c: char) -> bool {
    forall|i: int| 0 <= i < s.len() ==> s[i] != c
}

/// The prefix of `s` that stands before the first occurrence of `c`
/// (all of `s` when `c` does not occur).
pub open spec fn prefix_to(s: Seq<char>, c: char) -> Seq<char>
    decreases s.len(),
{
    if s.len() == 0 {
        s
    } else if s[0] == c {
        Seq::empty()
    } else {
        seq![s[0]] + prefix_to(s.drop_first(), c)
    }
}

/// What follows the first occurrence of `c` in `s`
/// (empty when `c` does not occur).
pub open spec fn suffix_from(s: Seq<char>, c: char) -> Seq<char>
    decreases s.len(),
{
    if s.len() == 0 {
        s
    } else if s[0] == c {
        s.drop_first()
    } else {
        suffix_from(s.drop_first(), c)
    }
}

/// The lines of `s`, split at `'\n'`; a final newline closes the last
/// line rather than opening an empty one.
pub open spec fn lines_of(s: Seq<char>) -> Seq<Seq<char>>
    decreases s.len(),
{
    if s.len() == 0 {
        Seq::empty()
    } else if s[0] == '\n' {
        seq![Seq::<char>::empty()] + lines_of(s.drop_first())
    } else {
        let rest = lines_of(s.drop_first());
        if rest.len() == 0 {
            seq![s]
        } else {
            seq![seq![s[0]] + rest[0]] + rest.drop_first()
        }
    }
}

/// When the first occurrence of `c` in `s` is at `i`, the prefix and the
/// suffix around `c` are the subranges on either side of `i`.
pub proof fn lemma_split_at_first(s: Seq<char>, c: char, i: int)
    requires
        0 <= i < s.len(),
        s[i] == c,
        forall|j: int| 0 <= j < i ==> s[j] != c,
    ensures
        !lacks_char(s, c),
        prefix_to(s, c) == s.subrange(0, i),
        suffix_from(s, c) == s.subrange(i + 1, s.len() as int),
    decreases i,
{
    if i == 0 {
        assert(prefix_to(s, c) =~= s.subrange(0, 0));
        assert(s.drop_first() =~= s.subrange(1, s.len() as int));
    } else {
        lemma_split_at_first(s.drop_first(), c, i - 1);
        assert(prefix_to(s, c) =~= seq![s[0]] + s.drop_first().subrange(0, i - 1));
        assert(prefix_to(s, c) =~= s.subrange(0, i));
        assert(s.drop_first().subrange(i, s.drop_first().len() as int) =~= s.subrange(
            i + 1,
            s.len() as int,
        ));
    }
}

/// When `c` does not occur in `s`, the prefix before `c` is `s` itself.
pub proof fn lemma_no_occurrence(s: Seq<char>, c: char)
    requires
        forall|j: int| 0 <= j < s.len() ==> s[j] != c,
    ensures
        lacks_char(s, c),
        prefix_to(s, c) == s,
    decreases s.len(),
{
    if s.len() > 0 {
        lemma_no_occurrence(s.drop_first(), c);
        assert(prefix_to(s, c) =~= seq![s[0]] + s.drop_first());
        assert(seq![s[0]] + s.drop_first() =~= s);
    }
}

/// A newline-free text forms a single line.
pub proof fn lemma_lines_of_unbroken(s: Seq<char>)
    requires
        s.len() > 0,
        lacks_char(s, '\n'),
    ensures
        lines_of(s) == seq![s],
    decreases s.len(),
{
    assert(s[0] != '\n');
    if s.drop_first().len() == 0 {
        assert(lines_of(s.drop_first()) =~= Seq::<Seq<char>>::empty());
        assert(lines_of(s) =~~= seq![s]);
    } else {
        lemma_lines_of_unbroken(s.drop_first());
        assert(seq![s[0]] + s.drop_first() =~= s);
        assert(lines_of(s) =~~= seq![s]);
    }
}

/// Splitting `head + '\n' + rest` peels off `head` as the first line
/// whenever `head` itself holds no newline.
pub proof fn lemma_lines_of_step(head: Seq<char>, rest: Seq<char>)
    requires
        lacks_char(head, '\n'),
    ensures
        lines_of(head + seq!['\n'] + rest) == seq![head] + lines_of(rest),
    decreases head.len(),
{
    let s = head + seq!['\n'] + rest;
    if head.len() == 0 {
        assert(s =~= seq!['\n'] + rest);
        assert(s[0] == '\n');
        assert(s.drop_first() =~= rest);
        assert(lines_of(s) =~~= seq![head] + lines_of(rest));
    } else {
        assert(s[0] == head[0]);
        assert(s.drop_first() =~= head.drop_first() + seq!['\n'] + rest);
        lemma_lines_of_step(head.drop_first(), rest);
        let inner = lines_of(head.drop_first() + seq!['\n'] + rest);
        assert(inner == seq![head.drop_first()] + lines_of(rest));
        assert(inner.len() > 0);
        assert(inner[0] == head.drop_first());
        assert(seq![s[0]] + inner[0] =~= head);
        assert(inner.drop_first() =~= lines_of(rest));
        assert(lines_of(s) =~~= seq![head] + lines_of(rest));
    }
}

/// Whether `a` and `b` hold the same characters.
pub fn str_equal(a: &str, b: &str) -> (r: bool)
    ensures
        r == (a@ == b@),
{
    let alen = a.unicode_len();
    let blen = b.unicode_len();
    if alen != blen {
        return false;
    }
    let mut i: usize = 0;
    while i < alen
        invariant
            alen == a@.len(),
            alen == b@.len(),
            0 <= i <= alen,
            forall|j: int| 0 <= j < i ==> a@[j] == b@[j],
        decreases alen - i,
    {
        if a.get_char(i) != b.get_char(i) {
            return false;
        }
        i += 1;
    }
    assert(a@ =~= b@);
    true
}

/// The position of the first `c` in `s` at or after `from`, if any.
pub fn find_char(s: &str, from: usize, c: char) -> (r: Option<usize>)
    requires
        from <= s@.len(),
    ensures
        match r {
            Some(i) => from <= i < s@.len() && s@[i as int] == c && (forall|j: int|
                from <= j < i ==> s@[j] != c),
            None => forall|j: int| from <= j < s@.len() ==> s@[j] != c,
        },
{
    let len = s.unicode_len();
    let mut i: usize = from;
    while i < len
        invariant
            len == s@.len(),
            from <= i <= len,
            forall|j: int| from <= j < i ==> s@[j] != c,
        decreases len - i,
    {
        if s.get_char(i) == c {
            return Some(i);
        }
        i += 1;
    }
    None
}

/// The lines of `s`, as `lines_of` describes them.
pub fn split_lines(s: &str) -> (r: Vec<String>)
    ensures
        r.deep_view() == lines_of(s@),
{
    let len = s.unicode_len();
    let mut out: Vec<String> = Vec::new();
    let mut pos: usize = 0;
    proof {
        assert(out.deep_view() =~= Seq::<Seq<char>>::empty());
        assert(s@.subrange(0, len as int) =~= s@);
        assert(out.deep_view() + lines_of(s@) =~= lines_of(s@));
    }
    while pos < len
        invariant
            len == s@.len(),
            0 <= pos <= len,
            out.deep_view() + lines_of(s@.subrange(pos as int, len as int)) == lines_of(s@),
        decreases len - pos,
    {
        let ghost remaining = s@.subrange(pos as int, len as int);
        let (line, next) = match find_char(s, pos, '\n') {
            Some(i) => {
                proof {
                    assert(remaining[i - pos] == '\n');
                    assert(s@.subrange(pos as int, i as int) + seq!['\n'] + s@.subrange(
                        i + 1,
                        len as int,
                    ) =~= remaining);
                    lemma_lines_of_step(
                        s@.subrange(pos as int, i as int),
                        s@.subrange(i + 1, len as int),
                    );
                }
                (s.substring_char(pos, i), i + 1)
            },
            None => {
                proof {
                    assert(forall|j: int| 0 <= j < remaining.len() ==> remaining[j] != '\n');
                    lemma_lines_of_unbroken(remaining);
                    assert(s@.subrange(len as int, len as int) =~= Seq::<char>::empty());
                }
                (s.substring_char(pos, len), len)
            },
        };
        out.push(line.to_owned());
        pos = next;
        proof {
            assert(out.deep_view() + lines_of(s@.subrange(pos as int, len as int)) =~= lines_of(
                s@,
            ));
        }
    }
    proof {
        assert(s@.subrange(len as int, len as int) =~= Seq::<char>::empty());
        assert(out.deep_view() =~= lines_of(s@));
    }
    out
}

} // verus!
