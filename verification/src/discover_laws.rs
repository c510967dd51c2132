//! What holds of the databases that are found in a Hermes home: which they are, in which order they
//! are imported, and why a home cannot be listed.

use crate::discover::{
    by_name, discovered, entry_sources, found_sources, placed_source, root_sources, ProfileEntry,
    ProfileListing, RootListing, SourcePlace, SourceView,
};
use crate::error::Failure;
use crate::text::lex_le;
use crate::text_laws::{law_order_is_total, law_order_is_transitive};
use vstd::prelude::*;
use vstd::string::*;

verus! {

/// The source is the database of the entry that was listed at a position: a directory with a file
/// `state.db` in it.
pub open spec fn is_profile_database(
    entries: Seq<Result<ProfileEntry, String>>,
    i: int,
    source: SourceView,
) -> bool {
    &&& 0 <= i < entries.len()
    &&& entries[i] is Ok
    &&& entries[i]->Ok_0.is_dir
    &&& entries[i]->Ok_0.state_db is Some
    &&& source.profile_name == entries[i]->Ok_0.name@
    &&& source.path == entries[i]->Ok_0.state_db->0@
}

/// The source is a database of the Hermes home: the default one in its root, or that of a profile.
pub open spec fn is_database(listing: RootListing, source: SourceView) -> bool {
    &&& listing.exists
    &&& match source.place {
        SourcePlace::Root => {
            &&& listing.state_db is Some
            &&& source.profile_name == "default"@
            &&& source.path == listing.state_db->0@
        },
        SourcePlace::Profile(i) => {
            &&& listing.profiles is Entries
            &&& is_profile_database(listing.profiles->Entries_0@, i as int, source)
        },
    }
}

proof fn lemma_push_holds(sources: Seq<SourceView>, source: SourceView, s: SourceView)
    ensures
        sources.push(source).contains(s) <==> sources.contains(s) || s == source,
{
    let more = sources.push(source);
    if sources.contains(s) {
        let i = choose|i: int| 0 <= i < sources.len() && sources[i] == s;
        assert(more[i] == s);
    }
    if s == source {
        assert(more[sources.len() as int] == s);
    }
    if more.contains(s) {
        let i = choose|i: int| 0 <= i < more.len() && more[i] == s;
        if i < sources.len() {
            assert(sources[i] == s);
        }
    }
}

/// The source stands for the entry at the position that its place names.
spec fn is_listed(entries: Seq<Result<ProfileEntry, String>>, source: SourceView) -> bool {
    source.place is Profile && is_profile_database(
        entries,
        source.place->Profile_0 as int,
        source,
    )
}

proof fn lemma_listed(entries: Seq<Result<ProfileEntry, String>>, source: SourceView)
    requires
        entries.len() <= usize::MAX,
        entry_sources(entries) is Ok,
    ensures
        entry_sources(entries)->Ok_0.contains(source) <==> is_listed(entries, source),
    decreases entries.len(),
{
    if entries.len() > 0 {
        let first = entries.drop_last();
        let n = entries.len() - 1;
        lemma_listed(first, source);
        let before = entry_sources(first)->Ok_0;
        let entry = entries[n]->Ok_0;
        if entry.is_dir && entry.state_db is Some {
            let one = SourceView {
                profile_name: entry.name@,
                path: entry.state_db->0@,
                place: SourcePlace::Profile(n as usize),
            };
            assert(entry_sources(entries)->Ok_0 == before.push(one));
            lemma_push_holds(before, one, source);
        } else {
            assert(entry_sources(entries)->Ok_0 == before);
        }
        if is_listed(entries, source) && source.place->Profile_0 < n {
            assert(entries[source.place->Profile_0 as int]
                == first[source.place->Profile_0 as int]);
        }
        if is_listed(first, source) {
            assert(entries[source.place->Profile_0 as int]
                == first[source.place->Profile_0 as int]);
        }
    }
}

/// The sources stand in the order in which they were found.
spec fn as_found(sources: Seq<SourceView>) -> bool {
    forall|i: int, j: int|
        0 <= i < j < sources.len() ==> (#[trigger] sources[i]).place.rank() < (
        #[trigger] sources[j]).place.rank()
}

proof fn lemma_entries_as_found(entries: Seq<Result<ProfileEntry, String>>)
    requires
        entries.len() <= usize::MAX,
        entry_sources(entries) is Ok,
    ensures
        as_found(entry_sources(entries)->Ok_0),
        forall|i: int|
            0 <= i < entry_sources(entries)->Ok_0.len() ==> 0 <= (
            #[trigger] entry_sources(entries)->Ok_0[i]).place.rank() < entries.len(),
    decreases entries.len(),
{
    if entries.len() > 0 {
        let first = entries.drop_last();
        lemma_entries_as_found(first);
        let (before, after) = (entry_sources(first)->Ok_0, entry_sources(entries)->Ok_0);
        assert forall|i: int| 0 <= i < after.len() implies 0 <= (
        #[trigger] after[i]).place.rank() < entries.len() by {
            if i < before.len() {
                assert(after[i] == before[i]);
            }
        }
        assert forall|i: int, j: int| 0 <= i < j < after.len() implies (
        #[trigger] after[i]).place.rank() < (#[trigger] after[j]).place.rank() by {
            assert(after[i] == before[i]);
            if j < before.len() {
                assert(after[j] == before[j]);
            }
        }
    }
}

/// Sources are in order where they are ordered by name, and by where they were found where the names
/// are equal: the root first, then the profiles as they were listed.
pub open spec fn in_import_order(sources: Seq<SourceView>) -> bool {
    forall|i: int, j: int|
        0 <= i < j < sources.len() ==> goes_before(#[trigger] sources[i], #[trigger] sources[j])
}

/// One source is imported before the other.
pub open spec fn goes_before(a: SourceView, b: SourceView) -> bool {
    &&& lex_le(a.profile_name, b.profile_name)
    &&& a.profile_name == b.profile_name ==> match (a.place, b.place) {
        (SourcePlace::Root, SourcePlace::Root) => false,
        (SourcePlace::Root, SourcePlace::Profile(_)) => true,
        (SourcePlace::Profile(_), SourcePlace::Root) => false,
        (SourcePlace::Profile(i), SourcePlace::Profile(j)) => i < j,
    }
}

proof fn lemma_placed_source_holds(ordered: Seq<SourceView>, source: SourceView, s: SourceView)
    ensures
        placed_source(ordered, source).contains(s) <==> ordered.contains(s) || s == source,
        placed_source(ordered, source).len() == ordered.len() + 1,
    decreases ordered.len(),
{
    if ordered.len() == 0 || lex_le(ordered.last().profile_name, source.profile_name) {
        lemma_push_holds(ordered, source, s);
    } else {
        let first = ordered.drop_last();
        lemma_placed_source_holds(first, source, s);
        lemma_push_holds(placed_source(first, source), ordered.last(), s);
        lemma_push_holds(first, ordered.last(), s);
        assert(ordered =~= first.push(ordered.last()));
    }
}

proof fn lemma_placed_in_order(ordered: Seq<SourceView>, source: SourceView)
    requires
        in_import_order(ordered),
        forall|i: int|
            0 <= i < ordered.len() ==> (#[trigger] ordered[i]).place.rank() < source.place.rank(),
    ensures
        in_import_order(placed_source(ordered, source)),
    decreases ordered.len(),
{
    let placed = placed_source(ordered, source);
    if ordered.len() == 0 || lex_le(ordered.last().profile_name, source.profile_name) {
        assert forall|i: int, j: int| 0 <= i < j < placed.len() implies goes_before(
            #[trigger] placed[i],
            #[trigger] placed[j],
        ) by {
            if j == ordered.len() {
                if i < ordered.len() - 1 {
                    assert(goes_before(ordered[i], ordered[ordered.len() - 1]));
                    law_order_is_transitive(
                        ordered[i].profile_name,
                        ordered.last().profile_name,
                        source.profile_name,
                    );
                }
                assert(ordered[i].place.rank() < source.place.rank());
            }
        }
    } else {
        let (first, last) = (ordered.drop_last(), ordered.last());
        assert forall|i: int, j: int| 0 <= i < j < first.len() implies goes_before(
            #[trigger] first[i],
            #[trigger] first[j],
        ) by {
            assert(goes_before(ordered[i], ordered[j]));
        }
        assert forall|i: int| 0 <= i < first.len() implies (#[trigger] first[i]).place.rank()
            < source.place.rank() by {
            assert(first[i] == ordered[i]);
        }
        lemma_placed_in_order(first, source);
        let inner = placed_source(first, source);
        law_order_is_total(last.profile_name, source.profile_name);
        assert forall|i: int, j: int| 0 <= i < j < placed.len() implies goes_before(
            #[trigger] placed[i],
            #[trigger] placed[j],
        ) by {
            if j < inner.len() {
                assert(goes_before(inner[i], inner[j]));
            } else {
                lemma_placed_source_holds(first, source, inner[i]);
                assert(inner.contains(inner[i]));
                if inner[i] != source {
                    let k = choose|k: int| 0 <= k < first.len() && first[k] == inner[i];
                    assert(goes_before(ordered[k], ordered[ordered.len() - 1]));
                }
            }
        }
    }
}

proof fn lemma_by_name(found: Seq<SourceView>, source: SourceView)
    requires
        as_found(found),
    ensures
        in_import_order(by_name(found)),
        by_name(found).contains(source) <==> found.contains(source),
        by_name(found).len() == found.len(),
    decreases found.len(),
{
    if found.len() > 0 {
        let (first, last) = (found.drop_last(), found.last());
        assert(as_found(first)) by {
            assert forall|i: int, j: int| 0 <= i < j < first.len() implies (
            #[trigger] first[i]).place.rank() < (#[trigger] first[j]).place.rank() by {
                assert(found[i].place.rank() < found[j].place.rank());
            }
        }
        lemma_by_name(first, source);
        let ordered = by_name(first);
        assert forall|i: int| 0 <= i < ordered.len() implies (#[trigger] ordered[i]).place.rank()
            < last.place.rank() by {
            lemma_by_name(first, ordered[i]);
            assert(ordered.contains(ordered[i]));
            let k = choose|k: int| 0 <= k < first.len() && first[k] == ordered[i];
            assert(found[k].place.rank() < found[found.len() - 1].place.rank());
        }
        lemma_placed_in_order(ordered, last);
        lemma_placed_source_holds(ordered, last, source);
        lemma_push_holds(first, last, source);
        assert(found =~= first.push(last));
    }
}

proof fn lemma_found(listing: RootListing, source: SourceView)
    requires
        found_sources(listing) is Ok,
    ensures
        as_found(found_sources(listing)->Ok_0),
        found_sources(listing)->Ok_0.contains(source) <==> is_database(listing, source),
{
    let found = found_sources(listing)->Ok_0;
    if listing.exists {
        let root = root_sources(listing);
        assert(root.contains(source) <==> source.place is Root && is_database(listing, source)) by {
            if root.len() > 0 {
                assert(root[0] == SourceView {
                    profile_name: "default"@,
                    path: listing.state_db->0@,
                    place: SourcePlace::Root,
                });
                assert(root.contains(root[0]));
            }
        }
        if let ProfileListing::Entries(entries) = listing.profiles {
            assert(entries@.len() == entries.len());
            lemma_listed(entries@, source);
            lemma_entries_as_found(entries@);
            let others = entry_sources(entries@)->Ok_0;
            assert(found == root + others);
            assert forall|i: int, j: int| 0 <= i < j < found.len() implies (
            #[trigger] found[i]).place.rank() < (#[trigger] found[j]).place.rank() by {
                assert(found[j] == others[j - root.len()]);
                if i >= root.len() {
                    assert(found[i] == others[i - root.len()]);
                }
            }
            if root.contains(source) {
                let i = choose|i: int| 0 <= i < root.len() && root[i] == source;
                assert(found[i] == source);
            }
            if others.contains(source) {
                let i = choose|i: int| 0 <= i < others.len() && others[i] == source;
                assert(found[root.len() + i] == source);
            }
            if found.contains(source) {
                let i = choose|i: int| 0 <= i < found.len() && found[i] == source;
                if i < root.len() {
                    assert(root[i] == source);
                } else {
                    assert(others[i - root.len()] == source);
                }
            }
        }
    }
}

/// What is found of a Hermes home are its databases, all of them and nothing else, each once: ordered
/// by profile name, and those of the same name by where they stand.
pub proof fn law_every_database_is_found(listing: RootListing, source: SourceView)
    requires
        discovered(listing) is Ok,
    ensures
        discovered(listing)->Ok_0.contains(source) <==> is_database(listing, source),
        in_import_order(discovered(listing)->Ok_0),
{
    lemma_found(listing, source);
    lemma_by_name(found_sources(listing)->Ok_0, source);
}

/// A source never goes before itself, so that none is listed twice.
pub proof fn law_no_database_is_found_twice(listing: RootListing, i: int, j: int)
    requires
        discovered(listing) is Ok,
        0 <= i < j < discovered(listing)->Ok_0.len(),
    ensures
        discovered(listing)->Ok_0[i] != discovered(listing)->Ok_0[j],
        discovered(listing)->Ok_0[i].place != discovered(listing)->Ok_0[j].place,
{
    let sources = discovered(listing)->Ok_0;
    law_every_database_is_found(listing, sources[i]);
    law_every_database_is_found(listing, sources[j]);
    assert(sources.contains(sources[i]) && sources.contains(sources[j]));
    assert(goes_before(sources[i], sources[j]));
}

proof fn lemma_entries_fail(entries: Seq<Result<ProfileEntry, String>>)
    ensures
        entry_sources(entries) is Ok <==> forall|i: int|
            0 <= i < entries.len() ==> (#[trigger] entries[i]) is Ok,
    decreases entries.len(),
{
    if entries.len() > 0 {
        let first = entries.drop_last();
        lemma_entries_fail(first);
        if entry_sources(entries) is Ok {
            assert forall|i: int| 0 <= i < entries.len() implies (#[trigger] entries[i]) is Ok by {
                if i < first.len() {
                    assert(first[i] is Ok);
                    assert(first[i] == entries[i]);
                }
            }
        }
        if forall|i: int| 0 <= i < entries.len() ==> (#[trigger] entries[i]) is Ok {
            assert forall|i: int| 0 <= i < first.len() implies (#[trigger] first[i]) is Ok by {
                assert(first[i] == entries[i]);
            }
            assert(entries[entries.len() - 1] is Ok);
        }
    }
}

proof fn lemma_first_error(entries: Seq<Result<ProfileEntry, String>>, k: int)
    requires
        0 <= k < entries.len(),
        forall|i: int| 0 <= i < k ==> (#[trigger] entries[i]) is Ok,
        entries[k] is Err,
    ensures
        entry_sources(entries) == Err::<Seq<SourceView>, Failure>(
            Failure::Config("读取 Hermes Profile 失败: "@ + entries[k]->Err_0@),
        ),
    decreases entries.len(),
{
    let first = entries.drop_last();
    if k == first.len() {
        assert forall|i: int| 0 <= i < first.len() implies (#[trigger] first[i]) is Ok by {
            assert(first[i] == entries[i]);
        }
        lemma_entries_fail(first);
    } else {
        assert forall|i: int| 0 <= i < k implies (#[trigger] first[i]) is Ok by {
            assert(first[i] == entries[i]);
        }
        assert(first[k] == entries[k]);
        lemma_first_error(first, k);
    }
}

/// A Hermes home that is not there has no databases. One that is there cannot be listed exactly where
/// the directory of profiles cannot be read, or one of its entries, and the error says which.
pub proof fn law_home_that_cannot_be_listed(listing: RootListing)
    ensures
        !listing.exists ==> discovered(listing) == Ok::<Seq<SourceView>, Failure>(Seq::empty()),
        discovered(listing) is Err <==> listing.exists && match listing.profiles {
            ProfileListing::Absent => false,
            ProfileListing::Unreadable(_) => true,
            ProfileListing::Entries(entries) => exists|i: int|
                0 <= i < entries@.len() && (#[trigger] entries@[i]) is Err,
        },
        listing.exists && listing.profiles is Unreadable ==> discovered(listing) == Err::<
            Seq<SourceView>,
            Failure,
        >(Failure::Config("读取 Hermes Profiles 失败: "@ + listing.profiles->Unreadable_0@)),
        listing.exists && listing.profiles is Entries ==> forall|k: int| #[trigger]
            is_first_error(listing.profiles->Entries_0@, k) ==> discovered(listing) == Err::<
                Seq<SourceView>,
                Failure,
            >(
                Failure::Config(
                    "读取 Hermes Profile 失败: "@ + listing.profiles->Entries_0@[k]->Err_0@,
                ),
            ),
{
    if let ProfileListing::Entries(entries) = listing.profiles {
        lemma_entries_fail(entries@);
        assert forall|k: int| #[trigger] is_first_error(entries@, k) && listing.exists implies
            discovered(listing) == Err::<Seq<SourceView>, Failure>(
            Failure::Config("读取 Hermes Profile 失败: "@ + entries@[k]->Err_0@),
        ) by {
            lemma_first_error(entries@, k);
        }
    }
}

/// The entry is the first that could not be read.
pub open spec fn is_first_error(entries: Seq<Result<ProfileEntry, String>>, k: int) -> bool {
    &&& 0 <= k < entries.len()
    &&& entries[k] is Err
    &&& forall|i: int| 0 <= i < k ==> (#[trigger] entries[i]) is Ok
}

} // verus!
