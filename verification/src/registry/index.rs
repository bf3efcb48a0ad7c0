//! Index files: one line for each version of a crate, each a JSON object.

use crate::text;
use vstd::prelude::*;
use vstd::string::*;

verus! {

broadcast use vstd::string::group_string_axioms;

// ---------------------------------------------------------------------------
// Lines
// ---------------------------------------------------------------------------

/// A line of an index file, and the version that it is about. A line that is no index entry is
/// about none.
#[derive(Debug)]
pub struct IndexLine {
    pub text: String,
    pub vers: Option<String>,
}

/// An index line as mathematical values.
pub struct LineView {
    pub text: Seq<char>,
    pub vers: Option<Seq<char>>,
}

/// The text of an optional string.
pub open spec fn optional_text(s: Option<String>) -> Option<Seq<char>> {
    match s {
        Some(s) => Some(s@),
        None => None,
    }
}

impl View for IndexLine {
    type V = LineView;

    open spec fn view(&self) -> LineView {
        LineView { text: self.text@, vers: optional_text(self.vers) }
    }
}

/// The index lines that a sequence of them holds.
pub open spec fn line_views(lines: Seq<IndexLine>) -> Seq<LineView> {
    Seq::new(lines.len(), |i: int| lines[i]@)
}

/// The texts of index lines.
pub open spec fn line_texts(lines: Seq<LineView>) -> Seq<Seq<char>> {
    Seq::new(lines.len(), |i: int| lines[i].text)
}

/// Whether a line is about the version `vers`.
pub open spec fn is_about(line: LineView, vers: Seq<char>) -> bool {
    line.vers == Some(vers)
}

/// Whether a line of `lines` is about the version that `line` is about.
pub open spec fn is_covered(line: LineView, lines: Seq<LineView>) -> bool {
    line.vers is Some && exists|i: int| 0 <= i < lines.len() && #[trigger] lines[i].vers == line.vers
}

/// The lines that are not about the version `vers`.
pub open spec fn without_version(lines: Seq<LineView>, vers: Seq<char>) -> Seq<LineView> {
    lines.filter(|line: LineView| !is_about(line, vers))
}

/// The lines that are about the version `vers`.
pub open spec fn about_version(lines: Seq<LineView>, vers: Seq<char>) -> Seq<LineView> {
    lines.filter(|line: LineView| is_about(line, vers))
}

impl IndexLine {
    /// Whether the line is about the version `vers`.
    pub fn is_about_version(&self, vers: &str) -> (r: bool)
        ensures
            r == is_about(self@, vers@),
    {
        match &self.vers {
            Some(own) => text::same_text(own.as_str(), vers),
            None => false,
        }
    }

    /// The same line once more.
    pub fn duplicate(&self) -> (r: Self)
        ensures
            r@ == self@,
    {
        IndexLine {
            text: self.text.clone(),
            vers: match &self.vers {
                Some(vers) => Some(vers.clone()),
                None => None,
            },
        }
    }
}

/// Whether `version_of` finds `vers` in the text `line`.
pub open spec fn finds<F: Fn(&str) -> Option<String>>(
    version_of: F,
    line: Seq<char>,
    vers: Option<Seq<char>>,
) -> bool {
    exists|s: &str, found: Option<String>|
        s@ == line && optional_text(found) == vers && #[trigger] call_ensures(
            version_of,
            (s,),
            found,
        )
}

/// Whether `tagged` is `lines`, each with the version that `version_of` finds in it.
pub open spec fn is_tagged<F: Fn(&str) -> Option<String>>(
    tagged: Seq<LineView>,
    lines: Seq<Seq<char>>,
    version_of: F,
) -> bool {
    &&& line_texts(tagged) == lines
    &&& forall|i: int|
        0 <= i < tagged.len() ==> finds(
            version_of,
            (#[trigger] tagged[i]).text,
            tagged[i].vers,
        )
}

/// Each line with the version that `version_of` finds in it.
pub fn tag_lines<F: Fn(&str) -> Option<String>>(lines: Vec<String>, version_of: F) -> (r: Vec<
    IndexLine,
>)
    requires
        forall|line: &str| #[trigger] call_requires(version_of, (line,)),
    ensures
        is_tagged(line_views(r@), text::texts(lines@), version_of),
{
    let ghost all = lines@;
    let mut out: Vec<IndexLine> = Vec::new();
    for text in it: lines
        invariant
            it.seq() == all,
            forall|line: &str| #[trigger] call_requires(version_of, (line,)),
            out@.len() == it.index(),
            forall|i: int| 0 <= i < out@.len() ==> (#[trigger] out@[i]).text@ == all[i]@,
            forall|i: int|
                0 <= i < out@.len() ==> finds(
                    version_of,
                    (#[trigger] out@[i])@.text,
                    out@[i]@.vers,
                ),
    {
        let vers = version_of(text.as_str());
        assert(finds(version_of, text@, optional_text(vers)));
        out.push(IndexLine { text, vers });
    }
    assert(line_texts(line_views(out@)) =~= text::texts(all));
    out
}

/// The lines of an index file with the given text, and none where there is no file: each with the
/// version that `version_of` finds in it.
pub fn read_lines<F: Fn(&str) -> Option<String>>(content: Option<&str>, version_of: F) -> (r: Vec<
    IndexLine,
>)
    requires
        forall|line: &str| #[trigger] call_requires(version_of, (line,)),
    ensures
        is_tagged(
            line_views(r@),
            (match content {
                Some(content) => text::lines(content@),
                None => Seq::empty(),
            }),
            version_of,
        ),
{
    match content {
        Some(content) => tag_lines(text::split_lines(content), version_of),
        None => {
            let none: Vec<IndexLine> = Vec::new();
            assert(line_texts(line_views(none@)) =~= Seq::<Seq<char>>::empty());
            none
        },
    }
}

/// The lines that are not about the version `vers`, in their order.
pub fn drop_version(lines: Vec<IndexLine>, vers: &str) -> (r: Vec<IndexLine>)
    ensures
        line_views(r@) == without_version(line_views(lines@), vers@),
{
    let ghost given = lines@;
    let ghost all = line_views(lines@);
    let ghost keep = |line: LineView| !is_about(line, vers@);
    let mut out: Vec<IndexLine> = Vec::new();
    assert(line_views(out@) =~= all.take(0).filter(keep)) by {
        reveal(Seq::filter);
    }
    for line in it: lines
        invariant
            it.seq() == given,
            all == line_views(given),
            keep == (|line: LineView| !is_about(line, vers@)),
            line_views(out@) == all.take(it.index() as int).filter(keep),
    {
        let ghost n = it.index() as int;
        let ghost before = line_views(out@);
        proof {
            reveal(Seq::filter);
            assert(all.take(n + 1).drop_last() == all.take(n));
            assert(all.take(n + 1).last() == line@);
        }
        if !line.is_about_version(vers) {
            out.push(line);
            assert(line_views(out@) =~= before.push(line@));
        }
    }
    assert(all.take(all.len() as int) == all);
    out
}

/// The text of an index file with the given lines.
pub fn render_lines(lines: &[IndexLine]) -> (r: String)
    ensures
        r@ == text::joined_lines(line_texts(line_views(lines@))),
{
    let mut parts: Vec<String> = Vec::new();
    let mut i: usize = 0;
    while i < lines.len()
        invariant
            i <= lines@.len(),
            parts@.len() == i,
            forall|j: int| 0 <= j < i ==> (#[trigger] parts@[j])@ == lines@[j].text@,
        decreases lines@.len() - i,
    {
        parts.push(lines[i].text.clone());
        i += 1;
    }
    assert(text::texts(parts@) =~= line_texts(line_views(lines@)));
    text::join_lines(parts.as_slice())
}

// ---------------------------------------------------------------------------
// Publishing a version
// ---------------------------------------------------------------------------

/// The text of an index file after a version was published: the lines that it had, without those
/// about this version, and then the new line.
pub open spec fn updated_index(lines: Seq<LineView>, vers: Seq<char>, line: Seq<char>) -> Seq<
    char,
> {
    text::joined_lines(line_texts(without_version(lines, vers)).push(line))
}

/// The text of an index file after the version `vers` was published with the line `line`.
pub fn update_index(lines: Vec<IndexLine>, vers: &str, line: String) -> (r: String)
    ensures
        r@ == updated_index(line_views(lines@), vers@, line@),
{
    let ghost all = line_views(lines@);
    let ghost new = line@;
    let mut kept = drop_version(lines, vers);
    let ghost before = line_views(kept@);
    kept.push(IndexLine { text: line, vers: Some(String::from_str(vers)) });
    assert(line_texts(line_views(kept@)) =~= line_texts(before).push(new));
    render_lines(kept.as_slice())
}

// ---------------------------------------------------------------------------
// Merging the local layer over the upstream
// ---------------------------------------------------------------------------

/// The lines of the upstream with the local ones over them: one local line after the other takes
/// the place of all lines about its version, and goes last. A local line about no version is left
/// out.
pub open spec fn merged(upstream: Seq<LineView>, local: Seq<LineView>) -> Seq<LineView>
    decreases local.len(),
{
    if local.len() == 0 {
        upstream
    } else {
        let below = merged(upstream, local.drop_last());
        match local.last().vers {
            Some(vers) => without_version(below, vers).push(local.last()),
            None => below,
        }
    }
}

/// The lines of the upstream with the local ones over them.
pub fn merge_index(upstream: Vec<IndexLine>, local: &[IndexLine]) -> (r: Vec<IndexLine>)
    ensures
        line_views(r@) == merged(line_views(upstream@), line_views(local@)),
{
    let ghost below = line_views(upstream@);
    let ghost over = line_views(local@);
    let mut out = upstream;
    let mut i: usize = 0;
    assert(over.take(0) == Seq::<LineView>::empty());
    while i < local.len()
        invariant
            i <= local@.len(),
            over == line_views(local@),
            line_views(out@) == merged(below, over.take(i as int)),
        decreases local@.len() - i,
    {
        proof {
            assert(over.take(i + 1).drop_last() == over.take(i as int));
            assert(over.take(i + 1).last() == local@[i as int]@);
        }
        if let Some(vers) = &local[i].vers {
            let mut kept = drop_version(out, vers.as_str());
            let ghost before = line_views(kept@);
            let line = local[i].duplicate();
            let ghost last = line@;
            kept.push(line);
            assert(line_views(kept@) =~= before.push(last));
            out = kept;
        }
        i += 1;
    }
    assert(over.take(i as int) == over);
    out
}

// ---------------------------------------------------------------------------
// Laws
// ---------------------------------------------------------------------------

/// The lines of `local` that stay when it is merged: those about a version that no later line is
/// about.
pub open spec fn latest(local: Seq<LineView>) -> Seq<LineView>
    decreases local.len(),
{
    if local.len() == 0 {
        Seq::empty()
    } else {
        let below = latest(local.drop_last());
        match local.last().vers {
            Some(vers) => without_version(below, vers).push(local.last()),
            None => below,
        }
    }
}

/// Merging leaves every upstream line whose version the local layer does not have, in its order,
/// and puts the local lines behind them, for each version the last one.
pub proof fn law_merge_is_overlay(upstream: Seq<LineView>, local: Seq<LineView>)
    ensures
        merged(upstream, local) == upstream.filter(|line: LineView| !is_covered(line, local))
            + latest(local),
    decreases local.len(),
{
    let uncovered = |line: LineView| !is_covered(line, local);
    if local.len() == 0 {
        assert forall|i: int| 0 <= i < upstream.len() implies uncovered(#[trigger] upstream[i]) by {}
        lemma_filter_keeps_all(upstream, uncovered);
        assert(upstream + Seq::<LineView>::empty() =~= upstream);
    } else {
        let before = local.drop_last();
        let last = local.last();
        let uncovered_before = |line: LineView| !is_covered(line, before);
        law_merge_is_overlay(upstream, before);
        match last.vers {
            Some(vers) => {
                let other = |line: LineView| !is_about(line, vers);
                let a = upstream.filter(uncovered_before);
                let b = latest(before);
                Seq::filter_distributes_over_add(a, b, other);
                lemma_filter_twice(upstream, uncovered_before, other);
                let both = |line: LineView| uncovered_before(line) && other(line);
                assert forall|line: LineView| #[trigger] both(line) == uncovered(line) by {
                    lemma_covered_by_last(line, local);
                }
                assert(both =~= uncovered);
                assert((a.filter(other) + b.filter(other)).push(last) =~= a.filter(other)
                    + b.filter(other).push(last));
            },
            None => {
                assert forall|line: LineView| #[trigger] uncovered_before(line) == uncovered(
                    line,
                ) by {
                    lemma_covered_by_last(line, local);
                }
                assert(uncovered_before =~= uncovered);
            },
        }
    }
}

/// A line is covered by all lines but the last, or by the last.
proof fn lemma_covered_by_last(line: LineView, lines: Seq<LineView>)
    requires
        lines.len() > 0,
    ensures
        is_covered(line, lines) <==> is_covered(line, lines.drop_last()) || (line.vers is Some
            && lines.last().vers == line.vers),
{
    let before = lines.drop_last();
    if is_covered(line, lines) {
        let i = choose|i: int| 0 <= i < lines.len() && #[trigger] lines[i].vers == line.vers;
        if i < lines.len() - 1 {
            assert(before[i].vers == line.vers);
        }
    }
    if is_covered(line, before) {
        let i = choose|i: int| 0 <= i < before.len() && #[trigger] before[i].vers == line.vers;
        assert(lines[i].vers == line.vers);
    }
    if line.vers is Some && lines.last().vers == line.vers {
        assert(lines[lines.len() - 1].vers == line.vers);
    }
}

/// Filtering by what holds of every element changes nothing.
proof fn lemma_filter_keeps_all(lines: Seq<LineView>, keep: spec_fn(LineView) -> bool)
    requires
        forall|i: int| 0 <= i < lines.len() ==> keep(#[trigger] lines[i]),
    ensures
        lines.filter(keep) == lines,
    decreases lines.len(),
{
    reveal(Seq::filter);
    if lines.len() > 0 {
        let before = lines.drop_last();
        assert forall|i: int| 0 <= i < before.len() implies keep(#[trigger] before[i]) by {
            assert(before[i] == lines[i]);
        }
        lemma_filter_keeps_all(before, keep);
        assert(keep(lines[lines.len() - 1]));
        assert(before.push(lines.last()) =~= lines);
    }
}

/// Filtering twice is filtering by both.
proof fn lemma_filter_twice(
    lines: Seq<LineView>,
    first: spec_fn(LineView) -> bool,
    second: spec_fn(LineView) -> bool,
)
    ensures
        lines.filter(first).filter(second) == lines.filter(
            |line: LineView| first(line) && second(line),
        ),
    decreases lines.len(),
{
    reveal(Seq::filter);
    if lines.len() > 0 {
        lemma_filter_twice(lines.drop_last(), first, second);
        let before = lines.drop_last().filter(first);
        if first(lines.last()) {
            let all = before.push(lines.last());
            assert(all.drop_last() =~= before);
            assert(all.last() == lines.last());
        }
    }
}

/// A version that the local layer has is in the merged index exactly once, with the last line that
/// the local layer has for it.
pub proof fn law_local_versions_win(
    upstream: Seq<LineView>,
    local: Seq<LineView>,
    vers: Seq<char>,
)
    requires
        exists|i: int| 0 <= i < local.len() && is_about(#[trigger] local[i], vers),
    ensures
        about_version(local, vers).len() > 0,
        about_version(merged(upstream, local), vers) == seq![about_version(local, vers).last()],
    decreases local.len(),
{
    let about = |line: LineView| is_about(line, vers);
    let before = local.drop_last();
    let below = merged(upstream, before);
    let i = choose|i: int| 0 <= i < local.len() && is_about(#[trigger] local[i], vers);
    reveal(Seq::filter);
    match local.last().vers {
        Some(own) => {
            let other = |line: LineView| !is_about(line, own);
            let kept = below.filter(other);
            let all = kept.push(local.last());
            assert(all.drop_last() =~= kept);
            lemma_filter_twice(below, other, about);
            let both = |line: LineView| other(line) && about(line);
            if own == vers {
                assert forall|j: int| 0 <= j < below.len() implies !both(#[trigger] below[j]) by {}
                below.lemma_all_neg_filter_empty(both);
                assert(all.filter(about) =~= seq![local.last()]);
            } else {
                assert(both =~= about);
                assert(before[i] == local[i]);
                law_local_versions_win(upstream, before, vers);
            }
        },
        None => {
            assert(before[i] == local[i]);
            law_local_versions_win(upstream, before, vers);
        },
    }
}

/// What a publish writes reads back as the lines that were there, without those about the
/// published version, and then the new line.
pub proof fn law_published_index_reads_back(
    lines: Seq<LineView>,
    vers: Seq<char>,
    line: Seq<char>,
)
    requires
        text::is_line(line),
        forall|i: int| 0 <= i < lines.len() ==> text::is_line((#[trigger] lines[i]).text),
    ensures
        text::lines(updated_index(lines, vers, line)) == line_texts(
            without_version(lines, vers),
        ).push(line),
{
    let kept = without_version(lines, vers);
    let all = line_texts(kept).push(line);
    assert forall|i: int| 0 <= i < all.len() implies text::is_line(#[trigger] all[i]) by {
        if i < kept.len() {
            assert(kept.contains(kept[i]));
            lines.lemma_filter_contains_rev(|line: LineView| !is_about(line, vers), kept[i]);
            let j = choose|j: int| 0 <= j < lines.len() && lines[j] == kept[i];
            assert(text::is_line(lines[j].text));
        }
    }
    text::law_lines_read_back(all);
}

/// Publishing a version again replaces its line, and touches no line about another version.
pub proof fn law_republish_replaces(
    lines: Seq<LineView>,
    first: LineView,
    second: LineView,
    vers: Seq<char>,
)
    requires
        is_about(first, vers),
        is_about(second, vers),
    ensures
        without_version(without_version(lines, vers).push(first), vers).push(second)
            == without_version(lines, vers).push(second),
        forall|other: Seq<char>|
            other != vers ==> about_version(without_version(lines, vers).push(first), other)
                == #[trigger] about_version(lines, other),
{
    let kept = without_version(lines, vers);
    let after = kept.push(first);
    let away = |line: LineView| !is_about(line, vers);
    assert(after.drop_last() =~= kept);
    lemma_filter_twice(lines, away, away);
    assert((|line: LineView| away(line) && away(line)) =~= away);
    reveal(Seq::filter);
    assert(after.filter(away) == kept);
    assert forall|other: Seq<char>| other != vers implies about_version(after, other)
        == #[trigger] about_version(lines, other) by {
        let about = |line: LineView| is_about(line, other);
        lemma_filter_twice(lines, away, about);
        assert((|line: LineView| away(line) && about(line)) =~= about);
        assert(after.filter(about) == kept.filter(about));
    }
}

/// The lines that are not about a version are those whose version is another one or none, and the
/// lines about it are those with that version.
pub proof fn law_lines_by_version(lines: Seq<LineView>, vers: Seq<char>)
    ensures
        without_version(lines, vers) == lines.filter(|line: LineView| line.vers != Some(vers)),
        about_version(lines, vers) == lines.filter(|line: LineView| line.vers == Some(vers)),
{
    let other = |line: LineView| line.vers != Some(vers);
    let same = |line: LineView| line.vers == Some(vers);
    assert((|line: LineView| !is_about(line, vers)) =~= other);
    assert((|line: LineView| is_about(line, vers)) =~= same);
}

/// A version that the local layer has is in the merged index once, and no more.
pub proof fn law_local_version_is_there_once(
    upstream: Seq<LineView>,
    local: Seq<LineView>,
    i: int,
)
    requires
        0 <= i < local.len(),
        local[i].vers is Some,
    ensures
        merged(upstream, local).filter(|line: LineView| line.vers == local[i].vers).len() == 1,
{
    let vers = local[i].vers->0;
    assert(is_about(local[i], vers));
    law_local_versions_win(upstream, local, vers);
    law_lines_by_version(merged(upstream, local), vers);
    assert((|line: LineView| line.vers == local[i].vers) =~= (|line: LineView| line.vers == Some(
        vers,
    )));
}

/// Every line of the merged index is a line of the local layer that no later one has the version
/// of, or a line of the upstream whose version the local layer does not have.
pub proof fn law_merged_lines_come_from_the_layers(
    upstream: Seq<LineView>,
    local: Seq<LineView>,
    line: LineView,
)
    ensures
        merged(upstream, local).contains(line) <==> {
            ||| exists|i: int|
                0 <= i < local.len() && (#[trigger] local[i]) == line && line.vers is Some
                    && forall|j: int| i < j < local.len() ==> (#[trigger] local[j]).vers != line.vers
            ||| upstream.contains(line) && (line.vers is None || forall|j: int|
                0 <= j < local.len() ==> (#[trigger] local[j]).vers != line.vers)
        },
    decreases local.len(),
{
    let all = merged(upstream, local);
    if local.len() > 0 {
        let before = local.drop_last();
        let below = merged(upstream, before);
        let last = local.last();
        let n = local.len() - 1;
        law_merged_lines_come_from_the_layers(upstream, before, line);
        if exists|i: int|
            0 <= i < before.len() && (#[trigger] before[i]) == line && line.vers is Some && forall|
                j: int,
            |
                i < j < before.len() ==> (#[trigger] before[j]).vers != line.vers {
            let i = choose|i: int|
                0 <= i < before.len() && (#[trigger] before[i]) == line && line.vers is Some
                    && forall|j: int|
                    i < j < before.len() ==> (#[trigger] before[j]).vers != line.vers;
            assert(local[i] == line);
            if last.vers != line.vers {
                assert forall|j: int| i < j < local.len() implies (#[trigger] local[j]).vers
                    != line.vers by {
                    if j < n {
                        assert(local[j] == before[j]);
                    }
                }
            }
        }
        if exists|i: int|
            0 <= i < local.len() && (#[trigger] local[i]) == line && line.vers is Some && forall|
                j: int,
            |
                i < j < local.len() ==> (#[trigger] local[j]).vers != line.vers {
            let i = choose|i: int|
                0 <= i < local.len() && (#[trigger] local[i]) == line && line.vers is Some
                    && forall|j: int|
                    i < j < local.len() ==> (#[trigger] local[j]).vers != line.vers;
            if i < n {
                assert(before[i] == line);
                assert(local[n].vers != line.vers);
                assert forall|j: int| i < j < before.len() implies (#[trigger] before[j]).vers
                    != line.vers by {
                    assert(local[j] == before[j]);
                }
            }
        }
        assert((forall|j: int| 0 <= j < local.len() ==> (#[trigger] local[j]).vers != line.vers)
            <==> last.vers != line.vers && forall|j: int|
            0 <= j < before.len() ==> (#[trigger] before[j]).vers != line.vers) by {
            if forall|j: int| 0 <= j < local.len() ==> (#[trigger] local[j]).vers != line.vers {
                assert(local[n] == last);
                assert forall|j: int| 0 <= j < before.len() implies (#[trigger] before[j]).vers
                    != line.vers by {
                    assert(local[j] == before[j]);
                }
            }
            if last.vers != line.vers && forall|j: int|
                0 <= j < before.len() ==> (#[trigger] before[j]).vers != line.vers {
                assert forall|j: int| 0 <= j < local.len() implies (#[trigger] local[j]).vers
                    != line.vers by {
                    if j < n {
                        assert(local[j] == before[j]);
                    }
                }
            }
        }
        match last.vers {
            Some(vers) => {
                let kept = without_version(below, vers);
                lemma_kept_lines(below, vers, line);
                assert(all[all.len() - 1] == last);
                if kept.contains(line) {
                    let k = choose|k: int| 0 <= k < kept.len() && kept[k] == line;
                    assert(all[k] == line);
                }
                if all.contains(line) && !kept.contains(line) {
                    let k = choose|k: int| 0 <= k < all.len() && all[k] == line;
                    if k < kept.len() {
                        assert(kept[k] == line);
                    }
                    assert(line == last);
                }
                assert(all.contains(line) <==> kept.contains(line) || line == last);
                assert(kept.contains(line) <==> below.contains(line) && line.vers != Some(vers));
                if line == last {
                    assert(local[n] == line);
                }
            },
            None => {},
        }
    }
}

/// A line is kept exactly when it is there and not about the version.
proof fn lemma_kept_lines(lines: Seq<LineView>, vers: Seq<char>, line: LineView)
    ensures
        without_version(lines, vers).contains(line) <==> lines.contains(line) && line.vers != Some(
            vers,
        ),
{
    let keep = |line: LineView| !is_about(line, vers);
    let kept = lines.filter(keep);
    broadcast use vstd::seq_lib::group_filter_ensures;

    if kept.contains(line) {
        lines.lemma_filter_contains_rev(keep, line);
        assert(exists|i: int| 0 <= i < kept.len() && keep(#[trigger] kept[i]) && kept[i] == line);
    }
    if lines.contains(line) && line.vers != Some(vers) {
        let i = choose|i: int| 0 <= i < lines.len() && lines[i] == line;
        assert(keep(lines[i]));
        assert(kept.contains(lines[i]));
    }
}

/// A publish writes the new line last, keeps every line about another version or none, and no other
/// one.
pub proof fn law_publish_keeps_other_lines(
    lines: Seq<LineView>,
    vers: Seq<char>,
    line: Seq<char>,
    other: Seq<char>,
)
    requires
        text::is_line(line),
        forall|i: int| 0 <= i < lines.len() ==> text::is_line((#[trigger] lines[i]).text),
    ensures
        ({
            let after = text::lines(updated_index(lines, vers, line));
            &&& after.len() > 0
            &&& after.last() == line
            &&& after.drop_last().contains(other) <==> exists|i: int|
                0 <= i < lines.len() && (#[trigger] lines[i]).text == other && lines[i].vers != Some(
                    vers,
                )
        }),
{
    law_published_index_reads_back(lines, vers, line);
    let kept = without_version(lines, vers);
    let texts = line_texts(kept);
    let after = text::lines(updated_index(lines, vers, line));
    assert(after.drop_last() =~= texts);
    if texts.contains(other) {
        let k = choose|k: int| 0 <= k < texts.len() && texts[k] == other;
        assert(kept.contains(kept[k]));
        lemma_kept_lines(lines, vers, kept[k]);
        let i = choose|i: int| 0 <= i < lines.len() && lines[i] == kept[k];
        assert(lines[i].text == other);
    }
    if exists|i: int|
        0 <= i < lines.len() && (#[trigger] lines[i]).text == other && lines[i].vers != Some(vers) {
        let i = choose|i: int|
            0 <= i < lines.len() && (#[trigger] lines[i]).text == other && lines[i].vers != Some(
                vers,
            );
        assert(lines.contains(lines[i]));
        lemma_kept_lines(lines, vers, lines[i]);
        let k = choose|k: int| 0 <= k < kept.len() && kept[k] == lines[i];
        assert(texts[k] == other);
    }
}

/// Reading lines changes none of them: each has its own text, and a version that `version_of` gives
/// for exactly that text.
pub proof fn law_tagged_lines_are_the_lines<F: Fn(&str) -> Option<String>>(
    tagged: Seq<LineView>,
    lines: Seq<Seq<char>>,
    version_of: F,
    i: int,
)
    requires
        is_tagged(tagged, lines, version_of),
        0 <= i < lines.len(),
    ensures
        tagged.len() == lines.len(),
        tagged[i].text == lines[i],
        exists|s: &str, found: Option<String>| #[trigger]
            call_ensures(version_of, (s,), found) && s@ == lines[i] && (match found {
                Some(vers) => tagged[i].vers == Some(vers@),
                None => tagged[i].vers is None,
            }),
{
    assert(line_texts(tagged).len() == lines.len());
    assert(line_texts(tagged)[i] == tagged[i].text);
    assert(finds(version_of, tagged[i].text, tagged[i].vers));
}

} // verus!
