//! Catalog-builder support: extracting candidate locale identifiers from
//! a locale source listing (tokens introduced by a `# ` marker), and
//! assembling one catalog entry from the locale facility's raw output.
use crate::catalog::LocaleData;
use crate::record::{Locale, empty_model, parse_lines};
use crate::text::{
    find_char, lemma_no_occurrence, lemma_split_at_first, lines_of, prefix_to, split_lines,
};
use vstd::prelude::*;

verus! {

/// The segments of `s` around each occurrence of the two-character
/// marker `# `, leftmost occurrence first; a text without the marker is
/// one segment.
pub open spec fn marker_split(s: Seq<char>) -> Seq<Seq<char>>
    decreases s.len(),
{
    if s.len() < 2 {
        seq![s]
    } else if s[0] == '#' && s[1] == ' ' {
        seq![Seq::<char>::empty()] + marker_split(s.subrange(2, s.len() as int))
    } else {
        let rest = marker_split(s.drop_first());
        seq![seq![s[0]] + rest[0]] + rest.drop_first()
    }
}

/// Whether the marker `# ` occurs nowhere in `s`.
pub open spec fn lacks_marker(s: Seq<char>) -> bool {
    forall|j: int| 0 <= j && j + 1 < s.len() ==> !(#[trigger] s[j] == '#' && s[j + 1] == ' ')
}

/// One extracted identifier: the segment with its trailing character
/// removed and, if a space remains, truncated before the first space.
pub open spec fn refine_token(t: Seq<char>) -> Seq<char> {
    prefix_to(t.drop_last(), ' ')
}

/// The identifiers that a list of segments yields: empty segments are
/// dropped, the others refined.
pub open spec fn process_segments(segs: Seq<Seq<char>>) -> Seq<Seq<char>>
    decreases segs.len(),
{
    if segs.len() == 0 {
        Seq::empty()
    } else {
        process_segments(segs.drop_last()) + (if segs.last().len() == 0 {
            Seq::<Seq<char>>::empty()
        } else {
            seq![refine_token(segs.last())]
        })
    }
}

/// The candidate locale identifiers embedded in a locale source listing.
pub open spec fn identifiers_of(s: Seq<char>) -> Seq<Seq<char>> {
    process_segments(marker_split(s))
}

/// A marker-free text forms a single segment.
pub proof fn lemma_marker_split_unbroken(s: Seq<char>)
    requires
        lacks_marker(s),
    ensures
        marker_split(s) == seq![s],
    decreases s.len(),
{
    if s.len() >= 2 {
        assert(!(s[0] == '#' && s[1] == ' '));
        lemma_marker_split_unbroken(s.drop_first());
        assert(marker_split(s) =~~= seq![seq![s[0]] + s.drop_first()]);
        assert(seq![s[0]] + s.drop_first() =~= s);
        assert(marker_split(s) =~~= seq![s]);
    }
}

/// Splitting `head + "# " + rest` peels off `head` as the first segment
/// whenever the marker occurs nowhere in `head`.
pub proof fn lemma_marker_split_step(head: Seq<char>, rest: Seq<char>)
    requires
        lacks_marker(head),
    ensures
        marker_split(head + seq!['#', ' '] + rest) == seq![head] + marker_split(rest),
    decreases head.len(),
{
    let s = head + seq!['#', ' '] + rest;
    if head.len() == 0 {
        assert(s[0] == '#' && s[1] == ' ');
        assert(s.subrange(2, s.len() as int) =~= rest);
        assert(marker_split(s) =~~= seq![head] + marker_split(rest));
    } else {
        assert(s[0] == head[0]);
        if head.len() == 1 {
            assert(s[1] == '#');
            assert(!(s[0] == '#' && s[1] == ' '));
        } else {
            assert(s[1] == head[1]);
            assert(!(s[0] == '#' && s[1] == ' '));
        }
        assert(s.drop_first() =~= head.drop_first() + seq!['#', ' '] + rest);
        lemma_marker_split_step(head.drop_first(), rest);
        let inner = marker_split(head.drop_first() + seq!['#', ' '] + rest);
        assert(inner == seq![head.drop_first()] + marker_split(rest));
        assert(inner.len() > 0);
        assert(inner[0] == head.drop_first());
        assert(seq![s[0]] + inner[0] =~= head);
        assert(inner.drop_first() =~= marker_split(rest));
        assert(marker_split(s) =~~= seq![head] + marker_split(rest));
    }
}

/// Refining segments distributes over concatenation of segment lists.
pub proof fn lemma_process_segments_concat(a: Seq<Seq<char>>, b: Seq<Seq<char>>)
    ensures
        process_segments(a + b) == process_segments(a) + process_segments(b),
    decreases b.len(),
{
    if b.len() == 0 {
        assert(a + b =~= a);
        assert(process_segments(b) =~= Seq::<Seq<char>>::empty());
        assert(process_segments(a + b) =~= process_segments(a) + process_segments(b));
    } else {
        assert((a + b).drop_last() =~= a + b.drop_last());
        lemma_process_segments_concat(a, b.drop_last());
        assert((a + b).last() == b.last());
        assert(process_segments(a + b) =~= process_segments(a) + process_segments(b));
    }
}

/// The position of the first `# ` marker at or after `from`, if any.
fn find_marker(s: &str, from: usize) -> (r: Option<usize>)
    requires
        from <= s@.len(),
    ensures
        match r {
            Some(i) => {
                &&& from <= i
                &&& i + 1 < s@.len()
                &&& s@[i as int] == '#'
                &&& s@[i as int + 1] == ' '
                &&& forall|j: int| from <= j < i ==> !(#[trigger] s@[j] == '#' && s@[j + 1] == ' ')
            },
            None => forall|j: int| from <= j && j + 1 < s@.len() ==> !(#[trigger] s@[j] == '#'
                && s@[j + 1] == ' '),
        },
{
    let len = s.unicode_len();
    if len == 0 {
        return None;
    }
    let mut i: usize = from;
    while i < len - 1
        invariant
            len == s@.len(),
            len >= 1,
            from <= i,
            i <= len,
            forall|j: int| from <= j < i ==> !(#[trigger] s@[j] == '#' && s@[j + 1] == ' '),
        decreases len - i,
    {
        if s.get_char(i) == '#' && s.get_char(i + 1) == ' ' {
            return Some(i);
        }
        i += 1;
    }
    None
}

/// Extracts the candidate locale identifiers from a locale source
/// listing: the text is split at each `# ` marker, empty segments are
/// dropped, and each remaining segment loses its trailing character and
/// anything from its first space on.
pub fn extract_identifiers(data: &str) -> (r: Vec<String>)
    ensures
        r.deep_view() == identifiers_of(data@),
{
    let len = data.unicode_len();
    let mut out: Vec<String> = Vec::new();
    let mut pos: usize = 0;
    proof {
        assert(data@.subrange(0, len as int) =~= data@);
        assert(out.deep_view() =~= Seq::<Seq<char>>::empty());
        assert(out.deep_view() + identifiers_of(data@) =~= identifiers_of(data@));
    }
    while pos < len
        invariant
            len == data@.len(),
            0 <= pos <= len,
            out.deep_view() + process_segments(marker_split(data@.subrange(pos as int, len as int)))
                == identifiers_of(data@),
        decreases len - pos,
    {
        let ghost remaining = data@.subrange(pos as int, len as int);
        let (seg_end, next) = match find_marker(data, pos) {
            Some(i) => {
                proof {
                    let chunk = data@.subrange(pos as int, i as int);
                    let tail = data@.subrange(i + 2, len as int);
                    assert(chunk + seq!['#', ' '] + tail =~= remaining);
                    lemma_marker_split_step(chunk, tail);
                    lemma_process_segments_concat(seq![chunk], marker_split(tail));
                }
                (i, i + 2)
            },
            None => {
                proof {
                    assert(lacks_marker(remaining));
                    lemma_marker_split_unbroken(remaining);
                }
                (len, len)
            },
        };
        let ghost chunk = data@.subrange(pos as int, seg_end as int);
        let ghost new_rest = data@.subrange(next as int, len as int);
        proof {
            assert(seq![chunk].drop_last() =~= Seq::<Seq<char>>::empty());
            assert(process_segments(Seq::<Seq<char>>::empty()) =~= Seq::<Seq<char>>::empty());
            if next == len && seg_end == len {
                // final segment: the remainder after it is empty
                assert(new_rest =~= Seq::<char>::empty());
                assert(marker_split(new_rest) =~= seq![new_rest]);
                assert(seq![new_rest].drop_last() =~= Seq::<Seq<char>>::empty());
                assert(process_segments(seq![new_rest]) =~= Seq::<Seq<char>>::empty());
                assert(process_segments(marker_split(remaining)) =~= process_segments(seq![chunk]));
            } else {
                assert(process_segments(marker_split(remaining)) =~= process_segments(seq![chunk])
                    + process_segments(marker_split(new_rest)));
            }
        }
        if seg_end > pos {
            let seg = data.substring_char(pos, seg_end);
            let seg_len = seg.unicode_len();
            let cut = seg_len - 1;
            let token_end = match find_char(seg, 0, ' ') {
                Some(sp) => {
                    if sp < cut {
                        proof {
                            assert(seg@.drop_last() =~= seg@.subrange(0, cut as int));
                            lemma_split_at_first(seg@.drop_last(), ' ', sp as int);
                        }
                        sp
                    } else {
                        proof {
                            assert(seg@.drop_last() =~= seg@.subrange(0, cut as int));
                            lemma_no_occurrence(seg@.drop_last(), ' ');
                        }
                        cut
                    }
                },
                None => {
                    proof {
                        assert(seg@.drop_last() =~= seg@.subrange(0, cut as int));
                        lemma_no_occurrence(seg@.drop_last(), ' ');
                    }
                    cut
                },
            };
            let token = seg.substring_char(0, token_end);
            proof {
                assert(token@ == refine_token(chunk));
                assert(process_segments(seq![chunk]) =~= seq![refine_token(chunk)]);
            }
            let ghost prev_dv = out.deep_view();
            out.push(token.to_owned());
            proof {
                assert(out.deep_view() =~= prev_dv.push(token@));
            }
        } else {
            proof {
                assert(process_segments(seq![chunk]) =~= Seq::<Seq<char>>::empty());
            }
        }
        pos = next;
        proof {
            assert(out.deep_view() + process_segments(
                marker_split(data@.subrange(pos as int, len as int)),
            ) =~= identifiers_of(data@));
        }
    }
    proof {
        let empty_rest = data@.subrange(len as int, len as int);
        assert(empty_rest =~= Seq::<char>::empty());
        assert(marker_split(empty_rest) =~= seq![empty_rest]);
        assert(seq![empty_rest].drop_last() =~= Seq::<Seq<char>>::empty());
        assert(process_segments(Seq::<Seq<char>>::empty()) =~= Seq::<Seq<char>>::empty());
        assert(process_segments(seq![empty_rest]) =~= Seq::<Seq<char>>::empty());
        assert(out.deep_view() =~= identifiers_of(data@));
    }
    out
}

/// A text with one trailing newline removed, if it ends with one.
pub open spec fn chomp_newline(s: Seq<char>) -> Seq<char> {
    if s.len() > 0 && s[s.len() - 1] == '\n' {
        s.drop_last()
    } else {
        s
    }
}

/// Assembles one catalog entry from the locale facility's raw output
/// for an identifier: the country name with one trailing newline
/// trimmed, an empty flag, and the record parsed from the category dump.
pub fn build_entry(country_raw: &str, locale_dump: &str) -> (d: LocaleData)
    ensures
        d@.country == chomp_newline(country_raw@),
        d@.flag == Seq::<char>::empty(),
        d@.locale == parse_lines(empty_model(), lines_of(locale_dump@)),
{
    let len = country_raw.unicode_len();
    let country = if len > 0 && country_raw.get_char(len - 1) == '\n' {
        proof {
            assert(country_raw@.subrange(0, len - 1) =~= country_raw@.drop_last());
        }
        country_raw.substring_char(0, len - 1).to_owned()
    } else {
        country_raw.to_owned()
    };
    let lines = split_lines(locale_dump);
    let record = Locale::from_vec_string(lines);
    LocaleData { country, flag: String::new(), locale: record }
}

} // verus!
