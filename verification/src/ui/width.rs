use vstd::prelude::*;

verus! {

/// What `UnicodeWidthStr::width` of the crate `unicode-width` returns for a
/// text: the number of columns that it takes on a terminal.
pub uninterp spec fn display_width(text: Seq<char>) -> usize;

/// What `UnicodeSegmentation::graphemes` of the crate
/// `unicode-segmentation` yields for a text, with extended clusters: its
/// grapheme clusters, in order.
pub uninterp spec fn grapheme_clusters(text: Seq<char>) -> Seq<Seq<char>>;

/// The text of each part.
pub open spec fn texts_of(parts: Seq<&str>) -> Seq<Seq<char>> {
    parts.map_values(|part: &str| part@)
}

/// The parts in a row, as one text.
pub open spec fn joined(parts: Seq<Seq<char>>) -> Seq<char>
    decreases parts.len(),
{
    if parts.len() == 0 {
        Seq::empty()
    } else {
        joined(parts.drop_last()) + parts.last()
    }
}

/// Whether `parts` are pieces of `text`: none of them empty, and together,
/// in their order, the whole of it.
pub open spec fn covers(parts: Seq<Seq<char>>, text: Seq<char>) -> bool {
    &&& joined(parts) == text
    &&& forall|i: int| 0 <= i < parts.len() ==> (#[trigger] parts[i]).len() > 0
}

/// The display widths of the parts, added up.
pub open spec fn summed_width(parts: Seq<Seq<char>>) -> int
    decreases parts.len(),
{
    if parts.len() == 0 {
        0
    } else {
        summed_width(parts.drop_last()) + display_width(parts.last())
    }
}

/// How many of the parts, from the first one on, fit into `max_width`
/// columns by their widths added up: as many as do, all of them where all
/// fit.
pub open spec fn kept_count(parts: Seq<Seq<char>>, max_width: int) -> int
    decreases parts.len(),
{
    if parts.len() == 0 || summed_width(parts) <= max_width {
        parts.len() as int
    } else {
        kept_count(parts.drop_last(), max_width)
    }
}

/// The part of `text` that fits into `max_width` columns, with its width:
/// the grapheme clusters kept, as one text, and their widths added up.
pub open spec fn truncation(text: Seq<char>, max_width: usize) -> (Seq<char>, int) {
    let parts = grapheme_clusters(text);
    let kept = parts.take(kept_count(parts, max_width as int));
    (joined(kept), summed_width(kept))
}

/// Whether the part of `text` that fits into `max_width` columns is, as a
/// whole, as wide as its clusters added up, and the widths up to the first
/// cluster that does not fit can be added up in a machine word. It is so
/// for most texts; the part is narrower than the sum where one of its
/// clusters takes less room after another one than by itself.
pub open spec fn kept_adds_up(text: Seq<char>, max_width: usize) -> bool {
    let parts = grapheme_clusters(text);
    let k = kept_count(parts, max_width as int);
    &&& display_width(joined(parts.take(k))) == summed_width(parts.take(k))
    &&& k < parts.len() ==> summed_width(parts.take(k + 1)) <= usize::MAX
}

/// `UnicodeWidthStr::width` on `str`. The contract names the result.
#[verifier::external_body]
fn width_of(text: &str) -> (width: usize)
    ensures
        width == display_width(text@),
{
    unicode_width::UnicodeWidthStr::width(text)
}

/// `UnicodeSegmentation::graphemes` on `str`, for extended clusters,
/// collected. The contract names the clusters and says that they are
/// pieces of the text: the iterator yields slice after slice of it, each
/// from the end of the one before to the next boundary, up to its end.
#[verifier::external_body]
fn clusters_of<'a>(text: &'a str) -> (parts: Vec<&'a str>)
    ensures
        texts_of(parts@) == grapheme_clusters(text@),
        covers(texts_of(parts@), text@),
{
    unicode_segmentation::UnicodeSegmentation::graphemes(text, true).collect()
}

/// `UnicodeTruncateStr::unicode_truncate` on `str`: the longest part of
/// `text`, from its start and cut between grapheme clusters, whose clusters
/// are together at most `max_width` columns wide, with that sum.
///
/// The function adds up the widths of the clusters while they fit. In a
/// build with debug assertions it stops the program unless the part that
/// it keeps is, as a whole, as wide as that sum; and it ends the adding
/// early where a sum leaves the machine word. So it is called only where
/// the kept part adds up.
#[verifier::external_body]
fn unicode_truncate<'a>(text: &'a str, max_width: usize) -> (cut: (&'a str, usize))
    requires
        kept_adds_up(text@, max_width),
    ensures
        cut.0@ == truncation(text@, max_width).0,
        cut.1 == truncation(text@, max_width).1,
{
    unicode_truncate::UnicodeTruncateStr::unicode_truncate(text, max_width)
}

/// The widths of the parts are not negative, and the first `k` of them are
/// together no wider than all.
proof fn lemma_summed_width(parts: Seq<Seq<char>>, k: int)
    requires
        0 <= k <= parts.len(),
    ensures
        0 <= summed_width(parts.take(k)) <= summed_width(parts),
    decreases parts.len(),
{
    if k == parts.len() {
        assert(parts.take(k) =~= parts);
        if parts.len() > 0 {
            lemma_summed_width(parts.drop_last(), k - 1);
            assert(parts.drop_last().take(k - 1) =~= parts.take(k - 1));
        }
    } else {
        lemma_summed_width(parts.drop_last(), k);
        assert(parts.drop_last().take(k) =~= parts.take(k));
    }
}

/// The parts kept are the first `k` when these fit and one more does not.
pub proof fn lemma_kept_count(parts: Seq<Seq<char>>, max_width: int, k: int)
    requires
        0 <= k <= parts.len(),
        summed_width(parts.take(k)) <= max_width,
        k < parts.len() ==> summed_width(parts.take(k + 1)) > max_width,
    ensures
        kept_count(parts, max_width) == k,
    decreases parts.len(),
{
    if k == parts.len() {
        assert(parts.take(k) =~= parts);
    } else {
        lemma_summed_width(parts, k + 1);
        let rest = parts.drop_last();
        assert(rest.take(k) =~= parts.take(k));
        if k < rest.len() {
            assert(rest.take(k + 1) =~= parts.take(k + 1));
        }
        lemma_kept_count(rest, max_width, k);
    }
}

/// The first `k` parts, as one text, are a beginning of all of them as one
/// text.
proof fn lemma_joined_prefix(parts: Seq<Seq<char>>, k: int)
    requires
        0 <= k <= parts.len(),
    ensures
        joined(parts.take(k)).is_prefix_of(joined(parts)),
    decreases parts.len(),
{
    if k == parts.len() {
        assert(parts.take(k) =~= parts);
    } else {
        lemma_joined_prefix(parts.drop_last(), k);
        assert(parts.drop_last().take(k) =~= parts.take(k));
    }
}

/// Parts that are not empty make, as one text, at least as many characters
/// as there are parts.
proof fn lemma_joined_len(parts: Seq<Seq<char>>)
    requires
        forall|i: int| 0 <= i < parts.len() ==> (#[trigger] parts[i]).len() > 0,
    ensures
        joined(parts).len() >= parts.len(),
    decreases parts.len(),
{
    if parts.len() > 0 {
        let rest = parts.drop_last();
        assert forall|i: int| 0 <= i < rest.len() implies (#[trigger] rest[i]).len() > 0 by {
            assert(rest[i] == parts[i]);
        }
        lemma_joined_len(rest);
        assert(parts[parts.len() - 1].len() > 0);
    }
}

/// Truncation: a text whose clusters together fit into `max_width` columns
/// is kept whole, with their widths added up as its width. Of any other
/// text a shorter beginning is kept, which ends between two clusters; its
/// clusters fit, and with the next one they would not.
pub proof fn law_truncation(text: Seq<char>, max_width: usize)
    requires
        covers(grapheme_clusters(text), text),
    ensures
        ({
            let parts = grapheme_clusters(text);
            let k = kept_count(parts, max_width as int);
            let cut = truncation(text, max_width);
            &&& 0 <= k <= parts.len()
            &&& cut.0.is_prefix_of(text)
            &&& 0 <= cut.1 <= max_width
            &&& summed_width(parts) <= max_width ==> cut.0 == text && cut.1 == summed_width(parts)
            &&& summed_width(parts) > max_width ==> k < parts.len() && cut.0.len() < text.len()
                && summed_width(parts.take(k + 1)) > max_width
        }),
{
    let parts = grapheme_clusters(text);
    lemma_kept_fits(parts, max_width as int);
    let k = kept_count(parts, max_width as int);
    lemma_joined_prefix(parts, k);
    if summed_width(parts) <= max_width {
        assert(parts.take(k) =~= parts);
    } else {
        let rest = parts.skip(k);
        assert(parts =~= parts.take(k) + rest);
        lemma_joined_add(parts.take(k), rest);
        assert forall|i: int| 0 <= i < rest.len() implies (#[trigger] rest[i]).len() > 0 by {
            assert(rest[i] == parts[k + i]);
        }
        lemma_joined_len(rest);
    }
}

/// Two runs of parts make, as one text, the text of the first and then the
/// text of the second.
proof fn lemma_joined_add(first: Seq<Seq<char>>, second: Seq<Seq<char>>)
    ensures
        joined(first + second) == joined(first) + joined(second),
    decreases second.len(),
{
    if second.len() == 0 {
        assert(first + second =~= first);
        assert(joined(first) + joined(second) =~= joined(first));
    } else {
        lemma_joined_add(first, second.drop_last());
        assert((first + second).drop_last() =~= first + second.drop_last());
        assert(joined(first + second) =~= joined(first) + joined(second));
    }
}

/// The parts kept fit, and one more would not.
proof fn lemma_kept_fits(parts: Seq<Seq<char>>, max_width: int)
    requires
        0 <= max_width,
    ensures
        0 <= kept_count(parts, max_width) <= parts.len(),
        0 <= summed_width(parts.take(kept_count(parts, max_width))) <= max_width,
        kept_count(parts, max_width) < parts.len() ==> summed_width(
            parts.take(kept_count(parts, max_width) + 1),
        ) > max_width,
        kept_count(parts, max_width) == parts.len() <==> summed_width(parts) <= max_width,
    decreases parts.len(),
{
    lemma_summed_width(parts, parts.len() as int);
    if parts.len() == 0 {
        assert(parts.take(0) =~= parts);
    } else if summed_width(parts) <= max_width {
        assert(parts.take(parts.len() as int) =~= parts);
    } else {
        let rest = parts.drop_last();
        lemma_kept_fits(rest, max_width);
        let k = kept_count(rest, max_width);
        assert(rest.take(k) =~= parts.take(k));
        if k < rest.len() {
            assert(rest.take(k + 1) =~= parts.take(k + 1));
        } else {
            assert(parts.take(k + 1) =~= parts);
        }
    }
}

/// What the scan of a text for the part that fits has found.
pub struct Kept {
    /// The part that fits.
    pub part: String,
    /// The widths of its clusters, added up.
    pub width: usize,
    /// Whether the widths up to the first cluster that does not fit could
    /// be added up in a machine word.
    pub counted: bool,
}

/// Goes through the grapheme clusters of `text`, adding up their widths,
/// and keeps them while they fit into `max_width` columns.
pub fn cut_by_clusters(text: &str, max_width: usize) -> (kept: Kept)
    ensures
        kept.part@ == truncation(text@, max_width).0,
        kept.width == truncation(text@, max_width).1,
        kept.part@.is_prefix_of(text@),
        kept.width <= max_width,
        covers(grapheme_clusters(text@), text@),
        kept.counted == ({
            let parts = grapheme_clusters(text@);
            let k = kept_count(parts, max_width as int);
            k < parts.len() ==> summed_width(parts.take(k + 1)) <= usize::MAX
        }),
{
    let parts = clusters_of(text);
    let ghost clusters = grapheme_clusters(text@);
    let mut part = String::new();
    let mut width: usize = 0;
    let mut counted = true;
    let mut full = false;
    let mut k: usize = 0;
    proof {
        assert(clusters.take(0) =~= Seq::empty());
    }
    while k < parts.len() && !full
        invariant
            k <= parts.len(),
            clusters == texts_of(parts@),
            part@ == joined(clusters.take(k as int)),
            width == summed_width(clusters.take(k as int)),
            width <= max_width,
            !full ==> counted,
            full ==> k < parts.len() && summed_width(clusters.take(k + 1)) > max_width,
            full ==> (counted <==> summed_width(clusters.take(k + 1)) <= usize::MAX),
        decreases parts.len() - k + (if full { 0int } else { 1int }),
    {
        let next = parts[k];
        proof {
            let upto = clusters.take(k + 1);
            assert(upto.drop_last() =~= clusters.take(k as int));
            assert(upto.last() == next@);
        }
        match width.checked_add(width_of(next)) {
            Some(more) => {
                if more <= max_width {
                    part.append(next);
                    width = more;
                    k += 1;
                } else {
                    full = true;
                }
            },
            None => {
                counted = false;
                full = true;
            },
        }
    }
    proof {
        lemma_kept_count(clusters, max_width as int, k as int);
        lemma_joined_prefix(clusters, k as int);
    }
    Kept { part, width, counted }
}

/// Whether the part of `text` that fits into `max_width` columns adds up.
pub fn can_truncate(text: &str, max_width: usize) -> (ok: bool)
    ensures
        ok == kept_adds_up(text@, max_width),
{
    let kept = cut_by_clusters(text, max_width);
    kept.counted && width_of(kept.part.as_str()) == kept.width
}

/// The part of `text` that fits into `max_width` columns, with its width:
/// the grapheme clusters of the text, from the first one on, as long as
/// their widths added up are at most `max_width`.
///
/// Where the part adds up it is the one that `unicode_truncate` keeps.
/// Where it does not, it is cut in the same place by the widths of the
/// clusters.
pub fn truncate(text: &str, max_width: usize) -> (cut: (String, usize))
    ensures
        cut.0@ == truncation(text@, max_width).0,
        cut.1 == truncation(text@, max_width).1,
        cut.0@.is_prefix_of(text@),
        cut.1 <= max_width,
        covers(grapheme_clusters(text@), text@),
{
    let kept = cut_by_clusters(text, max_width);
    if kept.counted && width_of(kept.part.as_str()) == kept.width {
        let (part, width) = unicode_truncate(text, max_width);
        (part.to_owned(), width)
    } else {
        (kept.part, kept.width)
    }
}

} // verus!
