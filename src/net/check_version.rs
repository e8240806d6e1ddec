use vstd::prelude::*;
use crate::event::{is_info, Event};
use crate::text::{cmp_str, lemma_cmp_basics, lemma_cmp_trans, seq_cmp, str_lt};

verus! {

/// Where the release tags are read from.
pub trait FetchVersionInformation {
    /// The release tags known upstream, newest first; empty when they could not be had.
    fn fetch(&self) -> Vec<String>;
}

/// Notice that `latest` is newer than `current`.
pub open spec fn newer_notice(current: Seq<char>, latest: Seq<char>) -> Seq<char> {
    "There is a newer version of Blightmud available. (current: "@ + current + ", new: "@ + latest
        + ")"@
}

/// Where to get `latest`.
pub open spec fn upgrade_notice(latest: Seq<char>) -> Seq<char> {
    "Visit https://github.com/Blightmud/Blightmud/releases/tag/"@ + latest
        + " to upgrade to latest version"@
}

/// The notices owed for `tags`, newest first, when running `current`: two when the
/// first tag orders after `current`, none otherwise.
pub open spec fn version_notices(tags: Seq<Seq<char>>, current: Seq<char>) -> Seq<Seq<char>> {
    if tags.len() > 0 && seq_cmp(tags[0], current) == core::cmp::Ordering::Greater {
        seq![newer_notice(current, tags[0]), upgrade_notice(tags[0])]
    } else {
        Seq::empty()
    }
}

/// `events` are `Info` events carrying `texts`, in order.
pub open spec fn infos(events: Seq<Event>, texts: Seq<Seq<char>>) -> bool {
    &&& events.len() == texts.len()
    &&& forall|i: int| 0 <= i < events.len() ==> #[trigger] is_info(events[i], texts[i])
}

/// The views of a list of strings.
pub open spec fn views(v: Seq<String>) -> Seq<Seq<char>> {
    v.map_values(|s: String| s@)
}

/// No entry orders before a later one.
pub open spec fn descending(s: Seq<Seq<char>>) -> bool {
    forall|i: int, j: int| 0 <= i < j < s.len() ==> !str_lt(s[i], s[j])
}

/// The events to put on the bus for release tags `tags` (newest first) when
/// running version `current`.
pub fn version_events(tags: &Vec<String>, current: &str) -> (r: Vec<Event>)
    ensures
        infos(r@, version_notices(views(tags@), current@)),
{
    let mut r: Vec<Event> = Vec::new();
    if tags.len() > 0 {
        let latest = &tags[0];
        if matches!(cmp_str(latest.as_str(), current), core::cmp::Ordering::Greater) {
            let mut notice = String::from_str("There is a newer version of Blightmud available. (current: ");
            notice.append(current);
            notice.append(", new: ");
            notice.append(latest.as_str());
            notice.append(")");
            let mut upgrade = String::from_str("Visit https://github.com/Blightmud/Blightmud/releases/tag/");
            upgrade.append(latest.as_str());
            upgrade.append(" to upgrade to latest version");
            r.push(Event::Info(notice));
            r.push(Event::Info(upgrade));
        }
    }
    proof {
        let n = version_notices(views(tags@), current@);
        assert forall|i: int| 0 <= i < r@.len() implies #[trigger] is_info(r@[i], n[i]) by {}
    }
    r
}

/// Fetches the release tags and appends to `writer` the notices that
/// `version_events` gives for them.
pub fn run<F: FetchVersionInformation>(writer: &mut Vec<Event>, current: &str, fetcher: &F)
    ensures
        final(writer)@.subrange(0, old(writer)@.len() as int) == old(writer)@,
        exists|tags: Seq<Seq<char>>|
            infos(
                #[trigger] final(writer)@.subrange(old(writer)@.len() as int, final(writer)@.len() as int),
                version_notices(tags, current@),
            ),
{
    let tags = fetcher.fetch();
    let mut events = version_events(&tags, current);
    let ghost added = events@;
    writer.append(&mut events);
    assert(writer@.subrange(0, old(writer)@.len() as int) =~= old(writer)@);
    assert(writer@.subrange(old(writer)@.len() as int, writer@.len() as int) =~= added);
}

/// `tags` sorted so that no tag orders before a later one; equal tags keep their order.
pub fn sort_descending(tags: Vec<String>) -> (r: Vec<String>)
    ensures
        descending(views(r@)),
        r@.to_multiset() == tags@.to_multiset(),
{
    broadcast use vstd::seq_lib::group_to_multiset_ensures;
    let mut out: Vec<String> = Vec::new();
    let mut i: usize = 0;
    while i < tags.len()
        invariant
            i <= tags.len(),
            descending(views(out@)),
            out@.to_multiset() == tags@.subrange(0, i as int).to_multiset(),
        decreases tags.len() - i,
    {
        let t = tags[i].clone();
        let mut j: usize = 0;
        while j < out.len()
            invariant
                j <= out.len(),
                forall|k: int| 0 <= k < j ==> !str_lt(#[trigger] out@[k]@, t@),
            ensures
                j <= out.len(),
                forall|k: int| 0 <= k < j ==> !str_lt(#[trigger] out@[k]@, t@),
                j < out.len() ==> str_lt(out@[j as int]@, t@),
            decreases out.len() - j,
        {
            if matches!(cmp_str(out[j].as_str(), t.as_str()), core::cmp::Ordering::Less) {
                break;
            }
            j += 1;
        }
        proof {
            let o = views(out@);
            assert forall|k: int| j <= k < out@.len() implies str_lt(#[trigger] o[k], t@) by {
                assert(o[j as int] == out@[j as int]@);
                assert(str_lt(o[j as int], t@));
                if k > j {
                    assert(!str_lt(o[j as int], o[k]));
                    lemma_cmp_basics(o[j as int], o[k]);
                    lemma_cmp_basics(o[k], o[j as int]);
                    lemma_cmp_trans(o[k], o[j as int], t@);
                }
            }
            let n = views(out@.insert(j as int, t));
            assert(n =~= o.insert(j as int, t@));
            assert forall|a: int, b: int| 0 <= a < b < n.len() implies !str_lt(n[a], n[b]) by {
                if b == j {
                    assert(!str_lt(out@[a]@, t@));
                } else if a == j {
                    lemma_cmp_basics(o[b - 1], t@);
                } else if a < j && b > j {
                    assert(!str_lt(o[a], o[b - 1]));
                } else if b < j {
                    assert(!str_lt(o[a], o[b]));
                } else {
                    assert(!str_lt(o[a - 1], o[b - 1]));
                }
            }
            assert(tags@.subrange(0, i + 1) =~= tags@.subrange(0, i as int).push(t));
            vstd::seq_lib::to_multiset_build(tags@.subrange(0, i as int), t);
            vstd::seq_lib::to_multiset_insert(out@, j as int, t);
        }
        out.insert(j, t);
        i += 1;
    }
    assert(tags@.subrange(0, tags@.len() as int) =~= tags@);
    out
}

} // verus!
