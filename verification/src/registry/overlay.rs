//! The overlay as a whole: the layers one over the other, and what clients see of a publish.

use crate::endpoints;
use crate::registry::index;
use crate::registry::index::IndexLine;
use crate::registry::local;
use crate::registry::local::PublishPlan;
use crate::registry::proxy;
use crate::registry::publish;
use crate::registry::RegistryError;
use crate::response;
use crate::response::UpstreamResponse;
use crate::text;
use crate::types::{IndexEntry, PublishMetadata};
use vstd::prelude::*;
use vstd::string::*;
use vstd::utf8::*;

verus! {

broadcast use vstd::string::group_string_axioms;

// ---------------------------------------------------------------------------
// Layers
// ---------------------------------------------------------------------------

/// The index lines of entries, where `encoded` is what each of them encodes to: the text that it
/// encodes to, about its version. An entry that does not encode is left out.
pub open spec fn encoded_lines(encoded: Seq<Option<String>>, entries: Seq<IndexEntry>) -> Seq<
    index::LineView,
>
    decreases entries.len(),
{
    if entries.len() == 0 {
        Seq::empty()
    } else {
        let before = encoded_lines(encoded.drop_last(), entries.drop_last());
        match encoded.last() {
            Some(line) => before.push(
                index::LineView { text: line@, vers: Some(entries.last().vers@) },
            ),
            None => before,
        }
    }
}

/// The index lines that a layer has for a crate, where `found` is what it found: each entry as
/// `encode` writes it, and nothing where the layer failed.
pub fn entry_lines<F: Fn(&IndexEntry) -> Option<String>>(
    found: Result<Vec<IndexEntry>, RegistryError>,
    encode: F,
) -> (r: Vec<IndexLine>)
    requires
        forall|entry: &IndexEntry| #[trigger] call_requires(encode, (entry,)),
    ensures
        found is Err ==> r@.len() == 0,
        found matches Ok(entries) ==> exists|encoded: Seq<Option<String>>| #[trigger]
            endpoints::is_encoded(encoded, entries@, encode) && index::line_views(r@)
                == encoded_lines(encoded, entries@),
{
    let entries = match found {
        Ok(entries) => entries,
        Err(_) => return Vec::new(),
    };
    let mut out: Vec<IndexLine> = Vec::new();
    let ghost mut encoded: Seq<Option<String>> = Seq::empty();
    let mut i: usize = 0;
    assert(index::line_views(out@) =~= encoded_lines(encoded, entries@.take(0)));
    while i < entries.len()
        invariant
            i <= entries@.len(),
            forall|entry: &IndexEntry| #[trigger] call_requires(encode, (entry,)),
            encoded.len() == i,
            forall|j: int|
                0 <= j < i ==> call_ensures(encode, (&entries@[j],), #[trigger] encoded[j]),
            index::line_views(out@) == encoded_lines(encoded, entries@.take(i as int)),
        decreases entries@.len() - i,
    {
        let one = encode(&entries[i]);
        let ghost before = index::line_views(out@);
        proof {
            let grown = encoded.push(one);
            assert(grown.drop_last() =~= encoded);
            assert(entries@.take(i + 1).drop_last() =~= entries@.take(i as int));
            assert(entries@.take(i + 1).last() == entries@[i as int]);
            encoded = grown;
        }
        if let Some(line) = one {
            let tagged = IndexLine { text: line, vers: Some(entries[i].vers.clone()) };
            let ghost view = tagged@;
            out.push(tagged);
            assert(index::line_views(out@) =~= before.push(view));
        }
        i += 1;
    }
    assert(entries@.take(i as int) =~= entries@);
    assert(endpoints::is_encoded(encoded, entries@, encode));
    out
}

/// The index lines of two layers, those of the upper one last.
pub fn stack_lines(below: Vec<IndexLine>, above: Vec<IndexLine>) -> (r: Vec<IndexLine>)
    ensures
        index::line_views(r@) == index::line_views(below@) + index::line_views(above@),
{
    let ghost lower = index::line_views(below@);
    let ghost upper = index::line_views(above@);
    let mut out = below;
    let mut above = above;
    out.append(&mut above);
    assert(index::line_views(out@) =~= lower + upper);
    out
}

/// The crate file of two layers, where `above` is what the upper one found, and nothing where there
/// is no such layer, and `below` is the file of the lower one, where it has it: the upper layer's,
/// and the lower one's where the upper one has none.
pub fn top_file(
    above: Option<Result<Vec<u8>, RegistryError>>,
    below: Option<Vec<u8>>,
) -> (r: Option<Vec<u8>>)
    ensures
        r == (match above {
            Some(Ok(data)) => Some(data),
            _ => below,
        }),
{
    match above {
        Some(Ok(data)) => Some(data),
        _ => below,
    }
}

/// Of a version that the upper layer has, clients see the upper layer's line, and it alone.
pub proof fn law_upper_layer_wins(
    upstream: Seq<index::LineView>,
    below: Seq<index::LineView>,
    above: Seq<index::LineView>,
    vers: Seq<char>,
)
    requires
        exists|i: int| 0 <= i < above.len() && index::is_about(#[trigger] above[i], vers),
    ensures
        index::about_version(above, vers).len() > 0,
        index::about_version(index::merged(upstream, below + above), vers) == seq![
            index::about_version(above, vers).last(),
        ],
{
    let both = below + above;
    let about = |line: index::LineView| index::is_about(line, vers);
    let i = choose|i: int| 0 <= i < above.len() && index::is_about(#[trigger] above[i], vers);
    assert(both[below.len() + i] == above[i]);
    index::law_local_versions_win(upstream, both, vers);
    index::law_local_versions_win(Seq::empty(), above, vers);
    Seq::filter_distributes_over_add(below, above, about);
    assert(index::about_version(both, vers).last() == index::about_version(above, vers).last());
}

// ---------------------------------------------------------------------------
// From a publish to what clients see
// ---------------------------------------------------------------------------

/// Whether a text has only one version that `version_of` finds in it.
pub open spec fn is_consistent<F: Fn(&str) -> Option<String>>(version_of: F) -> bool {
    forall|line: Seq<char>, a: Option<Seq<char>>, b: Option<Seq<char>>| #[trigger]
        index::finds(version_of, line, a) && #[trigger] index::finds(version_of, line, b) ==> a == b
}

/// Whether a carriage return at the end of a text does not change the version that `version_of`
/// finds in it.
pub open spec fn ignores_returns<F: Fn(&str) -> Option<String>>(version_of: F) -> bool {
    forall|line: Seq<char>, vers: Option<Seq<char>>|
        #![trigger index::finds(version_of, line, vers), text::without_return(line)]
        index::finds(version_of, line, vers) ==> index::finds(
            version_of,
            text::without_return(line),
            vers,
        )
}

/// Whether lines have the versions that `version_of` finds in them, and no line feeds.
pub open spec fn are_lines<F: Fn(&str) -> Option<String>>(
    lines: Seq<index::LineView>,
    version_of: F,
) -> bool {
    forall|i: int|
        0 <= i < lines.len() ==> index::finds(
            version_of,
            (#[trigger] lines[i]).text,
            lines[i].vers,
        ) && !lines[i].text.contains('\n')
}

/// The lines that an index answer is made of: those of the local layer alone where the upstream
/// fails or does not know the crate, and else those of the upstream with the local ones over them.
pub open spec fn served_lines(
    local: Seq<index::LineView>,
    answer: Result<UpstreamResponse, String>,
    upstream: Seq<index::LineView>,
) -> Seq<index::LineView> {
    match answer {
        Err(_) => local,
        Ok(found) => if found.status == response::NOT_FOUND {
            local
        } else {
            index::merged(upstream, local)
        },
    }
}

/// Lines that were read have no line feeds.
proof fn lemma_read_lines<F: Fn(&str) -> Option<String>>(
    lines: Seq<index::LineView>,
    content: Seq<char>,
    version_of: F,
)
    requires
        index::is_tagged(lines, text::lines(content), version_of) || index::is_tagged(
            lines,
            publish::filled_lines(content),
            version_of,
        ),
    ensures
        are_lines(lines, version_of),
{
    let all = text::lines(content);
    let filled = publish::filled_lines(content);
    let texts = index::line_texts(lines);
    text::lemma_lines_have_no_feed(content);
    assert forall|i: int| 0 <= i < lines.len() implies index::finds(
        version_of,
        (#[trigger] lines[i]).text,
        lines[i].vers,
    ) && !lines[i].text.contains('\n') by {
        assert(texts[i] == lines[i].text);
        if index::is_tagged(lines, all, version_of) {
            assert(!all[i].contains('\n'));
        } else {
            assert(filled.contains(filled[i]));
            all.lemma_filter_contains_rev(|line: Seq<char>| line.len() > 0, filled[i]);
            let j = choose|j: int| 0 <= j < all.len() && all[j] == filled[i];
            assert(!all[j].contains('\n'));
        }
    }
}

/// The lines that are not about a version are among the lines.
proof fn lemma_without_version_are_lines<F: Fn(&str) -> Option<String>>(
    lines: Seq<index::LineView>,
    vers: Seq<char>,
    version_of: F,
)
    requires
        are_lines(lines, version_of),
    ensures
        are_lines(index::without_version(lines, vers), version_of),
{
    let kept = index::without_version(lines, vers);
    assert forall|i: int| 0 <= i < kept.len() implies index::finds(
        version_of,
        (#[trigger] kept[i]).text,
        kept[i].vers,
    ) && !kept[i].text.contains('\n') by {
        assert(kept.contains(kept[i]));
        lines.lemma_filter_contains_rev(
            |line: index::LineView| !index::is_about(line, vers),
            kept[i],
        );
        let j = choose|j: int| 0 <= j < lines.len() && lines[j] == kept[i];
        assert(!lines[j].text.contains('\n'));
    }
}

/// The merged lines are among those that were merged.
proof fn lemma_merged_are_lines<F: Fn(&str) -> Option<String>>(
    upstream: Seq<index::LineView>,
    local: Seq<index::LineView>,
    version_of: F,
)
    requires
        are_lines(upstream, version_of),
        are_lines(local, version_of),
    ensures
        are_lines(index::merged(upstream, local), version_of),
    decreases local.len(),
{
    if local.len() > 0 {
        let before = local.drop_last();
        assert forall|i: int| 0 <= i < before.len() implies index::finds(
            version_of,
            (#[trigger] before[i]).text,
            before[i].vers,
        ) && !before[i].text.contains('\n') by {
            assert(before[i] == local[i]);
        }
        lemma_merged_are_lines(upstream, before, version_of);
        let below = index::merged(upstream, before);
        let last = local[local.len() - 1];
        if let Some(vers) = last.vers {
            lemma_without_version_are_lines(below, vers, version_of);
            let kept = index::without_version(below, vers);
            let all = kept.push(last);
            assert forall|i: int| 0 <= i < all.len() implies index::finds(
                version_of,
                (#[trigger] all[i]).text,
                all[i].vers,
            ) && !all[i].text.contains('\n') by {
                if i < kept.len() {
                    assert(all[i] == kept[i]);
                } else {
                    assert(all[i] == last);
                }
            }
        }
    }
}

/// What is about a version among lines is, once they were written and read, what was about it
/// before, each without the carriage return that it ends with.
proof fn lemma_reread<F: Fn(&str) -> Option<String>>(
    lines: Seq<index::LineView>,
    read: Seq<index::LineView>,
    vers: Seq<char>,
    version_of: F,
)
    requires
        is_consistent(version_of),
        ignores_returns(version_of),
        lines.len() > 0,
        are_lines(lines, version_of),
        index::is_tagged(
            read,
            text::lines(text::joined_lines(index::line_texts(lines))),
            version_of,
        ),
    ensures
        index::about_version(read, vers) == index::about_version(lines, vers).map_values(
            |line: index::LineView|
                index::LineView { text: text::without_return(line.text), vers: line.vers },
        ),
{
    let texts = index::line_texts(lines);
    let strip = |line: index::LineView|
        index::LineView { text: text::without_return(line.text), vers: line.vers };
    assert forall|i: int| 0 <= i < texts.len() implies !(#[trigger] texts[i]).contains('\n') by {
        assert(texts[i] == lines[i].text);
    }
    text::lemma_lines_of_joined(texts);
    let back = texts.map_values(|part: Seq<char>| text::without_return(part));
    assert(index::line_texts(read) == back);
    assert(read.len() == lines.len());
    assert forall|i: int| 0 <= i < lines.len() implies #[trigger] read[i] == strip(lines[i]) by {
        assert(index::line_texts(read)[i] == read[i].text);
        assert(back[i] == text::without_return(lines[i].text));
        assert(index::finds(version_of, lines[i].text, lines[i].vers));
        assert(index::finds(version_of, text::without_return(lines[i].text), lines[i].vers));
        assert(index::finds(version_of, read[i].text, read[i].vers));
    }
    assert(read =~= lines.map_values(strip));
    lemma_about_stripped(lines, vers);
}

/// Cutting carriage returns off changes nothing in which lines are about a version.
proof fn lemma_about_stripped(lines: Seq<index::LineView>, vers: Seq<char>)
    ensures
        index::about_version(
            lines.map_values(
                |line: index::LineView|
                    index::LineView { text: text::without_return(line.text), vers: line.vers },
            ),
            vers,
        ) == index::about_version(lines, vers).map_values(
            |line: index::LineView|
                index::LineView { text: text::without_return(line.text), vers: line.vers },
        ),
    decreases lines.len(),
{
    let strip = |line: index::LineView|
        index::LineView { text: text::without_return(line.text), vers: line.vers };
    let about = |line: index::LineView| index::is_about(line, vers);
    let all = lines.map_values(strip);
    reveal(Seq::filter);
    if lines.len() > 0 {
        lemma_about_stripped(lines.drop_last(), vers);
        assert(all.drop_last() =~= lines.drop_last().map_values(strip));
        assert(all.last() == strip(lines.last()));
        let before = lines.drop_last().filter(about);
        if about(lines.last()) {
            assert(before.push(lines.last()).map_values(strip) =~= before.map_values(strip).push(
                strip(lines.last()),
            ));
        }
    } else {
        assert(all =~= Seq::<index::LineView>::empty());
        assert(lines.filter(about).map_values(strip) =~= Seq::<index::LineView>::empty());
    }
}

/// After a publish, a request for the crate's index is answered with success, and whoever reads the
/// answer finds the published version in it exactly once, with the line that was published: whether
/// the upstream answers, with whatever it has of the crate, does not know it, or cannot be reached.
/// The request looks for the file that the publish wrote, and the entry that the line was written
/// for has the published name, version and checksum.
///
/// `before` is what was read of the index file's text `content`, and `line` what was written for
/// the new version; `local` is what is read of the file afterwards, `upstream` what is read of the
/// upstream's answer, and `seen` what is read of the answer to the request.
pub proof fn law_published_version_is_answered<F: Fn(&str) -> Option<String>>(
    version_of: F,
    plan: PublishPlan,
    metadata: PublishMetadata,
    data: Seq<u8>,
    content: Seq<char>,
    before: Seq<index::LineView>,
    line: Seq<char>,
    local: Seq<index::LineView>,
    answer: Result<UpstreamResponse, String>,
    upstream: Seq<index::LineView>,
    seen: Seq<index::LineView>,
)
    requires
        is_consistent(version_of),
        ignores_returns(version_of),
        local::is_plan_of(plan, metadata, data),
        publish::has_index_path(text::lowercase(metadata.name@)),
        text::lowercase(metadata.name@)[0] != '/',
        index::is_tagged(before, text::lines(content), version_of),
        text::is_line(line),
        index::finds(version_of, line, Some(metadata.vers@)),
        index::is_tagged(
            local,
            text::lines(index::updated_index(before, plan.vers@, line)),
            version_of,
        ),
        answer matches Ok(found) ==> found.status == response::NOT_FOUND || (response::is_success(
            found.status,
        ) && found.body is Ok),
        index::is_tagged(
            upstream,
            publish::filled_lines(proxy::answer_text(answer)),
            version_of,
        ),
        index::is_tagged(
            seen,
            text::lines(
                text::joined_lines(index::line_texts(served_lines(local, answer, upstream))),
            ),
            version_of,
        ),
    ensures
        text::joined(
            proxy::local_index(proxy::request_path(text::lowercase(metadata.name@))),
            "/"@,
        ) == text::joined(text::texts(plan.index_file@), "/"@),
        response::is_success(proxy::index_answer(local, answer, upstream).status),
        proxy::index_answer(local, answer, upstream).body == encode_utf8(
            text::joined_lines(index::line_texts(served_lines(local, answer, upstream))),
        ),
        index::about_version(seen, metadata.vers@) == seq![
            index::LineView { text: line, vers: Some(metadata.vers@) },
        ],
        plan.entry.name@ == metadata.name@,
        plan.entry.vers@ == metadata.vers@,
        plan.entry.cksum@ == local::checksum_text(data),
{
    let vers = metadata.vers@;
    let new = index::LineView { text: line, vers: Some(vers) };
    let strip = |line: index::LineView|
        index::LineView { text: text::without_return(line.text), vers: line.vers };
    proxy::law_lookup_finds_what_publish_wrote(text::lowercase(metadata.name@));
    // What is written, and read again as the local layer
    lemma_read_lines(before, content, version_of);
    lemma_without_version_are_lines(before, vers, version_of);
    let kept = index::without_version(before, vers);
    let written = kept.push(new);
    assert(are_lines(written, version_of)) by {
        assert forall|i: int| 0 <= i < written.len() implies index::finds(
            version_of,
            (#[trigger] written[i]).text,
            written[i].vers,
        ) && !written[i].text.contains('\n') by {
            if i < kept.len() {
                assert(written[i] == kept[i]);
            }
        }
    }
    assert(index::line_texts(written) =~= index::line_texts(kept).push(line));
    lemma_about_after_publish(before, new, vers);
    lemma_reread(written, local, vers, version_of);
    assert(text::without_return(line) == line);
    assert(seq![new].map_values(strip) =~= seq![new]);
    assert(index::about_version(local, vers) == seq![new]);
    // What is served, and read again by the client
    lemma_read_lines(local, index::updated_index(before, vers, line), version_of);
    lemma_read_lines(upstream, proxy::answer_text(answer), version_of);
    let about = |line: index::LineView| index::is_about(line, vers);
    local.lemma_filter_contains_rev(about, index::about_version(local, vers)[0]);
    let k = choose|k: int| 0 <= k < local.len() && local[k] == new;
    assert(index::is_about(local[k], vers));
    index::law_local_versions_win(upstream, local, vers);
    lemma_merged_are_lines(upstream, local, version_of);
    let served = served_lines(local, answer, upstream);
    assert(index::about_version(served, vers) =~= seq![new]);
    assert(served.len() > 0) by {
        if served.len() == 0 {
            reveal(Seq::filter);
            assert(index::about_version(served, vers).len() == 0);
        }
    }
    lemma_reread(served, seen, vers, version_of);
}

/// What is about a version after its publish is the new line alone.
proof fn lemma_about_after_publish(
    before: Seq<index::LineView>,
    new: index::LineView,
    vers: Seq<char>,
)
    requires
        index::is_about(new, vers),
    ensures
        index::about_version(index::without_version(before, vers).push(new), vers) == seq![new],
{
    let after = index::without_version(before, vers).push(new);
    let kept = index::without_version(before, vers);
    let about = |line: index::LineView| index::is_about(line, vers);
    broadcast use vstd::seq_lib::group_filter_ensures;

    assert forall|i: int| 0 <= i < kept.len() implies !about(#[trigger] kept[i]) by {
        assert(kept.contains(kept[i]));
    }
    kept.lemma_all_neg_filter_empty(about);
    reveal(Seq::filter);
    assert(after.drop_last() =~= kept);
    assert(kept.filter(about) =~= Seq::<index::LineView>::empty());
    assert(Seq::<index::LineView>::empty().push(new) =~= seq![new]);
}

// ---------------------------------------------------------------------------
// Laws on layers and answers
// ---------------------------------------------------------------------------

/// Each entry that encodes is a line about its own version, in its place among the others; one that
/// does not takes no other one away.
pub proof fn law_entries_become_lines(
    encoded: Seq<Option<String>>,
    entries: Seq<IndexEntry>,
    one: Option<String>,
    entry: IndexEntry,
)
    requires
        encoded.len() == entries.len(),
    ensures
        encoded_lines(Seq::empty(), Seq::empty()) == Seq::<index::LineView>::empty(),
        one matches Some(line) ==> encoded_lines(encoded.push(one), entries.push(entry))
            == encoded_lines(encoded, entries).push(
            index::LineView { text: line@, vers: Some(entry.vers@) },
        ),
        one is None ==> encoded_lines(encoded.push(one), entries.push(entry)) == encoded_lines(
            encoded,
            entries,
        ),
{
    assert(encoded.push(one).drop_last() =~= encoded);
    assert(entries.push(entry).drop_last() =~= entries);
}

/// A version that only the upstream has stays in the index that clients see, and one that the local
/// layer has is there however the upstream answers.
pub proof fn law_no_version_is_lost(
    local: Seq<index::LineView>,
    answer: Result<UpstreamResponse, String>,
    upstream: Seq<index::LineView>,
    i: int,
)
    ensures
        0 <= i < upstream.len() && answer is Ok && answer->Ok_0.status != 404 && (forall|j: int|
            0 <= j < local.len() ==> (#[trigger] local[j]).vers != upstream[i].vers)
            ==> served_lines(local, answer, upstream).contains(upstream[i]),
        0 <= i < local.len() && local[i].vers is Some ==> exists|k: int|
            0 <= k < served_lines(local, answer, upstream).len() && (#[trigger] served_lines(
                local,
                answer,
                upstream,
            )[k]).vers == local[i].vers,
{
    let served = served_lines(local, answer, upstream);
    if 0 <= i < upstream.len() && answer is Ok && answer->Ok_0.status != 404 {
        assert(upstream.contains(upstream[i]));
        index::law_merged_lines_come_from_the_layers(upstream, local, upstream[i]);
    }
    if 0 <= i < local.len() && local[i].vers is Some {
        if served == local {
            assert(served[i].vers == local[i].vers);
        } else {
            let vers = local[i].vers->0;
            assert(index::is_about(local[i], vers));
            index::law_local_versions_win(upstream, local, vers);
            let about = |line: index::LineView| index::is_about(line, vers);
            let found = index::about_version(served, vers);
            assert(found.contains(found[0]));
            served.lemma_filter_contains_rev(about, found[0]);
            index::law_lines_by_version(served, vers);
            broadcast use vstd::seq_lib::group_filter_ensures;

            let same = |line: index::LineView| line.vers == Some(vers);
            assert(same(served.filter(same)[0]));
            let k = choose|k: int| 0 <= k < served.len() && served[k] == found[0];
            assert(served[k].vers == local[i].vers);
        }
    }
}

/// A crate file that the upper layer has is the one that is given; only where it has none is it the
/// lower layer's.
pub proof fn law_upper_file_wins(
    above: Option<Result<Vec<u8>, RegistryError>>,
    below: Option<Vec<u8>>,
    r: Option<Vec<u8>>,
)
    requires
        call_ensures(top_file, (above, below), r),
    ensures
        above matches Some(Ok(data)) ==> r == Some(data),
        above is None || above->0 is Err ==> r == below,
{
}

} // verus!
