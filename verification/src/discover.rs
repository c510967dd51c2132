//! Which databases of a Hermes home are imported: the default one in its root, and one for each
//! profile directly below it.

use crate::error::{AppError, Failure};
use crate::text::{lex_le, text_le};
use vstd::prelude::*;
use vstd::seq_lib::*;
use vstd::string::*;

verus! {

/// Where a database stands.
#[derive(Debug, Clone, Copy, PartialEq, Eq, Structural)]
pub enum SourcePlace {
    /// In the root of the Hermes home.
    Root,
    /// In the profile directory that was listed at this position.
    Profile(usize),
}

impl SourcePlace {
    /// The root comes before the profiles, and these in the order in which they were listed.
    pub open spec fn rank(self) -> int {
        match self {
            SourcePlace::Root => -1,
            SourcePlace::Profile(i) => i as int,
        }
    }
}

/// A database to import.
#[derive(Debug, Clone)]
pub struct HermesDatabaseSource {
    pub profile_name: String,
    pub path: String,
    pub place: SourcePlace,
}

/// What a [`HermesDatabaseSource`] holds.
pub struct SourceView {
    pub profile_name: Seq<char>,
    pub path: Seq<char>,
    pub place: SourcePlace,
}

impl View for HermesDatabaseSource {
    type V = SourceView;

    open spec fn view(&self) -> SourceView {
        SourceView { profile_name: self.profile_name@, path: self.path@, place: self.place }
    }
}

/// An entry of the directory of profiles.
#[derive(Debug)]
pub struct ProfileEntry {
    pub name: String,
    pub is_dir: bool,
    /// The path of the file `state.db` in it, where there is one.
    pub state_db: Option<String>,
}

/// What listing the directory of profiles gave.
#[derive(Debug)]
pub enum ProfileListing {
    /// There is no such directory.
    Absent,
    /// It cannot be read; the error says why.
    Unreadable(String),
    /// Its entries, with the error in place of one that cannot be read.
    Entries(Vec<Result<ProfileEntry, String>>),
}

/// What stands in a Hermes home.
#[derive(Debug)]
pub struct RootListing {
    pub exists: bool,
    /// The path of the file `state.db` in the root, where there is one.
    pub state_db: Option<String>,
    pub profiles: ProfileListing,
}

/// The source that a directory entry stands for: a profile that has a database.
pub open spec fn entry_source(entry: ProfileEntry, index: int) -> Option<SourceView> {
    match entry.state_db {
        Some(path) => if entry.is_dir {
            Some(
                SourceView {
                    profile_name: entry.name@,
                    path: path@,
                    place: SourcePlace::Profile(index as usize),
                },
            )
        } else {
            None
        },
        None => None,
    }
}

/// The sources that a list of directory entries stands for, in the order of the entries. One
/// that cannot be read fails the whole list.
pub open spec fn entry_sources(entries: Seq<Result<ProfileEntry, String>>) -> Result<
    Seq<SourceView>,
    Failure,
>
    decreases entries.len(),
{
    if entries.len() == 0 {
        Ok(Seq::empty())
    } else {
        match entry_sources(entries.drop_last()) {
            Err(e) => Err(e),
            Ok(sources) => match entries.last() {
                Err(error) => Err(Failure::Config("读取 Hermes Profile 失败: "@ + error@)),
                Ok(entry) => match entry_source(entry, entries.len() - 1) {
                    Some(source) => Ok(sources.push(source)),
                    None => Ok(sources),
                },
            },
        }
    }
}

/// The default source, where there is one.
pub open spec fn root_sources(listing: RootListing) -> Seq<SourceView> {
    match listing.state_db {
        Some(path) => seq![
            SourceView { profile_name: "default"@, path: path@, place: SourcePlace::Root },
        ],
        None => Seq::empty(),
    }
}

/// All sources of a Hermes home: the default one, then those of the profiles as they are listed.
pub open spec fn found_sources(listing: RootListing) -> Result<Seq<SourceView>, Failure> {
    if !listing.exists {
        Ok(Seq::empty())
    } else {
        match listing.profiles {
            ProfileListing::Absent => Ok(root_sources(listing)),
            ProfileListing::Unreadable(error) => Err(
                Failure::Config("读取 Hermes Profiles 失败: "@ + error@),
            ),
            ProfileListing::Entries(entries) => match entry_sources(entries@) {
                Ok(sources) => Ok(root_sources(listing) + sources),
                Err(e) => Err(e),
            },
        }
    }
}

/// `a` comes before `b`: by name, and by where they were found where the names are equal.
pub open spec fn comes_before(a: SourceView, b: SourceView) -> bool {
    lex_le(a.profile_name, b.profile_name) && (a.profile_name == b.profile_name ==> a.place.rank()
        < b.place.rank())
}

/// The sources stand in order.
pub open spec fn in_order(sources: Seq<SourceView>) -> bool {
    forall|i: int, j: int|
        0 <= i < j < sources.len() ==> comes_before(#[trigger] sources[i], #[trigger] sources[j])
}

/// A list ordered by name with one more source in its place: behind those whose names come no later.
pub open spec fn placed_source(ordered: Seq<SourceView>, source: SourceView) -> Seq<SourceView>
    decreases ordered.len(),
{
    if ordered.len() == 0 || lex_le(ordered.last().profile_name, source.profile_name) {
        ordered.push(source)
    } else {
        placed_source(ordered.drop_last(), source).push(ordered.last())
    }
}

/// The sources ordered by name; those of the same name stay in the order in which they were found.
pub open spec fn by_name(found: Seq<SourceView>) -> Seq<SourceView>
    decreases found.len(),
{
    if found.len() == 0 {
        Seq::empty()
    } else {
        placed_source(by_name(found.drop_last()), found.last())
    }
}

/// The sources of a Hermes home in the order in which they are imported.
pub open spec fn discovered(listing: RootListing) -> Result<Seq<SourceView>, Failure> {
    match found_sources(listing) {
        Ok(found) => Ok(by_name(found)),
        Err(e) => Err(e),
    }
}

/// The outcome of a discovery as what its sources and its error say.
pub open spec fn viewed_sources(r: Result<Vec<HermesDatabaseSource>, AppError>) -> Result<
    Seq<SourceView>,
    Failure,
> {
    match r {
        Ok(sources) => Ok(source_views(sources@)),
        Err(e) => Err(e@),
    }
}

/// What each source of a list holds.
pub open spec fn source_views(sources: Seq<HermesDatabaseSource>) -> Seq<SourceView> {
    sources.map_values(|s: HermesDatabaseSource| s@)
}

proof fn lemma_lex_total(a: Seq<char>, b: Seq<char>)
    ensures
        lex_le(a, b) || lex_le(b, a),
        lex_le(a, b) && lex_le(b, a) ==> a == b,
    decreases a.len(),
{
    if a.len() > 0 && b.len() > 0 {
        lemma_lex_total(a.drop_first(), b.drop_first());
        if a[0] == b[0] && a.drop_first() == b.drop_first() {
            assert(a =~= seq![a[0]] + a.drop_first());
            assert(b =~= seq![b[0]] + b.drop_first());
        }
    } else if a.len() == 0 && b.len() == 0 {
        assert(a =~= b);
    }
}

proof fn lemma_lex_transitive(a: Seq<char>, b: Seq<char>, c: Seq<char>)
    requires
        lex_le(a, b),
        lex_le(b, c),
    ensures
        lex_le(a, c),
    decreases a.len(),
{
    if a.len() > 0 && b.len() > 0 && c.len() > 0 && a[0] == b[0] && b[0] == c[0] {
        lemma_lex_transitive(a.drop_first(), b.drop_first(), c.drop_first());
    }
}

/// Where a source is placed.
proof fn lemma_placed_source(ordered: Seq<SourceView>, k: int, source: SourceView)
    requires
        0 <= k <= ordered.len(),
        k > 0 ==> lex_le(ordered[k - 1].profile_name, source.profile_name),
        forall|j: int|
            k <= j < ordered.len() ==> !lex_le(
                (#[trigger] ordered[j]).profile_name,
                source.profile_name,
            ),
    ensures
        placed_source(ordered, source) == ordered.insert(k, source),
    decreases ordered.len(),
{
    if k < ordered.len() {
        assert(ordered.last() == ordered[ordered.len() - 1]);
        lemma_placed_source(ordered.drop_last(), k, source);
        assert(ordered.drop_last().insert(k, source).push(ordered.last()) =~= ordered.insert(
            k,
            source,
        ));
    } else {
        assert(ordered.push(source) =~= ordered.insert(k, source));
    }
}

/// Puts one more source, found after all others, in its place.
fn insert_source(sources: &mut Vec<HermesDatabaseSource>, source: HermesDatabaseSource)
    requires
        in_order(source_views(old(sources)@)),
        forall|i: int|
            0 <= i < old(sources)@.len() ==> (#[trigger] old(sources)@[i])@.place.rank()
                < source@.place.rank(),
    ensures
        in_order(source_views(final(sources)@)),
        source_views(final(sources)@) == placed_source(source_views(old(sources)@), source@),
        source_views(final(sources)@).to_multiset() == source_views(
            old(sources)@,
        ).to_multiset().insert(source@),
        forall|i: int|
            0 <= i < final(sources)@.len() ==> (#[trigger] final(sources)@[i])@.place.rank()
                <= source@.place.rank(),
{
    let ghost before = source_views(sources@);
    let mut p: usize = sources.len();
    while p > 0 && !text_le(sources[p - 1].profile_name.as_str(), source.profile_name.as_str())
        invariant
            p <= sources@.len(),
            before == source_views(sources@),
            forall|i: int|
                p <= i < before.len() ==> !lex_le(
                    (#[trigger] before[i]).profile_name,
                    source@.profile_name,
                ),
        decreases p,
    {
        assert(before[p - 1] == sources@[p - 1]@);
        p = p - 1;
    }
    proof {
        let after = before.insert(p as int, source@);
        assert(source_views(sources@.insert(p as int, source)) =~= after);
        to_multiset_insert(before, p as int, source@);
        if p > 0 {
            assert(before[p - 1] == sources@[p - 1]@);
        }
        lemma_placed_source(before, p as int, source@);
        assert forall|i: int| 0 <= i < p implies comes_before(#[trigger] before[i], source@) by {
            assert(before[i] == sources@[i]@);
            assert(before[p - 1] == sources@[p - 1]@);
            if i < p - 1 {
                assert(comes_before(before[i], before[p - 1]));
                lemma_lex_transitive(
                    before[i].profile_name,
                    before[p - 1].profile_name,
                    source@.profile_name,
                );
            }
        }
        assert forall|i: int| p <= i < before.len() implies comes_before(
            source@,
            #[trigger] before[i],
        ) by {
            lemma_lex_total(source@.profile_name, before[i].profile_name);
        }
        assert forall|i: int, j: int| 0 <= i < j < after.len() implies comes_before(
            #[trigger] after[i],
            #[trigger] after[j],
        ) by {
            if j < p {
                assert(comes_before(before[i], before[j]));
            } else if j == p {
                assert(comes_before(before[i], source@));
            } else if i < p {
                assert(comes_before(before[i], before[j - 1]));
            } else if i == p {
                assert(comes_before(source@, before[j - 1]));
            } else {
                assert(comes_before(before[i - 1], before[j - 1]));
            }
        }
    }
    sources.insert(p, source);
}

/// A list of directory entries that fails at one of them fails as a whole.
proof fn lemma_entry_error_stays(entries: Seq<Result<ProfileEntry, String>>, k: int)
    requires
        0 <= k <= entries.len(),
        entry_sources(entries.take(k)) is Err,
    ensures
        entry_sources(entries) == entry_sources(entries.take(k)),
    decreases entries.len(),
{
    if k == entries.len() {
        assert(entries.take(k) =~= entries);
    } else {
        assert(entries.drop_last().take(k) =~= entries.take(k));
        lemma_entry_error_stays(entries.drop_last(), k);
    }
}

/// Lists that hold the same sources equally often are of the same length.
proof fn lemma_same_sources(sources: Seq<HermesDatabaseSource>, found: Seq<SourceView>)
    requires
        source_views(sources).to_multiset() == found.to_multiset(),
    ensures
        sources.len() == found.len(),
        forall|i: int| 0 <= i < sources.len() ==> found.contains((#[trigger] sources[i])@),
{
    let views = source_views(sources);
    to_multiset_len(views);
    to_multiset_len(found);
    assert forall|i: int| 0 <= i < sources.len() implies found.contains(
        (#[trigger] sources[i])@,
    ) by {
        assert(views[i] == sources[i]@);
        to_multiset_contains(views, views[i]);
        to_multiset_contains(found, views[i]);
    }
}

/// The outcome lists the found sources in order, or reports the failure.
pub open spec fn lists_in_order(
    r: Result<Vec<HermesDatabaseSource>, AppError>,
    found: Result<Seq<SourceView>, Failure>,
) -> bool {
    match r {
        Ok(sources) => {
            &&& found is Ok
            &&& sources@.len() == found->Ok_0.len()
            &&& forall|i: int|
                0 <= i < sources@.len() ==> found->Ok_0.contains((#[trigger] sources@[i])@)
            &&& source_views(sources@).to_multiset() == found->Ok_0.to_multiset()
            &&& in_order(source_views(sources@))
        },
        Err(e) => found == Err::<Seq<SourceView>, Failure>(e@),
    }
}

/// Picks the databases to import and lists them by profile name: the default one and those of the
/// profiles directly below the directory of profiles.
pub fn discover_hermes_databases(listing: &RootListing) -> (r: Result<
    Vec<HermesDatabaseSource>,
    AppError,
>)
    ensures
        viewed_sources(r) == discovered(*listing),
        lists_in_order(r, found_sources(*listing)),
{
    broadcast use to_multiset_build;

    let mut sources: Vec<HermesDatabaseSource> = Vec::new();
    assert(source_views(sources@) =~= Seq::empty());
    if !listing.exists {
        return Ok(sources);
    }
    let ghost root = root_sources(*listing);
    if let Some(path) = &listing.state_db {
        sources.push(
            HermesDatabaseSource {
                profile_name: "default".to_owned(),
                path: path.clone(),
                place: SourcePlace::Root,
            },
        );
    }
    proof {
        assert(source_views(sources@) =~= root);
        if root.len() > 0 {
            assert(root.drop_last() =~= Seq::empty());
            assert(by_name(root.drop_last()) =~= Seq::empty());
        }
        assert(by_name(root) =~= root);
    }
    match &listing.profiles {
        ProfileListing::Absent => {
            proof {
                lemma_same_sources(sources@, root);
            }
            Ok(sources)
        },
        ProfileListing::Unreadable(error) => {
            let mut message = "读取 Hermes Profiles 失败: ".to_owned();
            message.append(error.as_str());
            Err(AppError::Config(message))
        },
        ProfileListing::Entries(entries) => {
            let mut i: usize = 0;
            assert(root + Seq::<SourceView>::empty() =~= root);
            while i < entries.len()
                invariant
                    i <= entries@.len(),
                    listing.exists,
                    listing.profiles == ProfileListing::Entries(*entries),
                    entry_sources(entries@.take(i as int)) is Ok,
                    root == root_sources(*listing),
                    source_views(sources@) == by_name(
                        root + entry_sources(entries@.take(i as int))->Ok_0,
                    ),
                    source_views(sources@).to_multiset() == (root + entry_sources(
                        entries@.take(i as int),
                    )->Ok_0).to_multiset(),
                    in_order(source_views(sources@)),
                    forall|k: int|
                        0 <= k < sources@.len() ==> (#[trigger] sources@[k])@.place.rank() < i,
                decreases entries@.len() - i,
            {
                broadcast use to_multiset_build;

                let ghost shorter = entries@.take(i as int);
                let ghost longer = entries@.take(i + 1);
                let ghost so_far = entry_sources(shorter)->Ok_0;
                assert(longer.drop_last() =~= shorter);
                match &entries[i] {
                    Err(error) => {
                        proof {
                            lemma_entry_error_stays(entries@, i + 1);
                        }
                        let mut message = "读取 Hermes Profile 失败: ".to_owned();
                        message.append(error.as_str());
                        return Err(AppError::Config(message));
                    },
                    Ok(entry) => {
                        if entry.is_dir {
                            if let Some(path) = &entry.state_db {
                                let source = HermesDatabaseSource {
                                    profile_name: entry.name.clone(),
                                    path: path.clone(),
                                    place: SourcePlace::Profile(i),
                                };
                                proof {
                                    let longer_list = (root + so_far).push(source@);
                                    assert(root + so_far.push(source@) =~= longer_list);
                                    assert(longer_list.drop_last() =~= root + so_far);
                                }
                                insert_source(&mut sources, source);
                            }
                        }
                    },
                }
                i = i + 1;
            }
            proof {
                assert(entries@.take(i as int) =~= entries@);
                lemma_same_sources(sources@, root + entry_sources(entries@)->Ok_0);
            }
            Ok(sources)
        },
    }
}

} // verus!
