//! One session on a bucket: the collections read from its catalog, the
//! filtered view that narrows them, and the search over the working set.

use vstd::prelude::*;
use crate::linz_s3_filter::dataset::{
    BucketName,
    Collection,
    CollectionView,
    Item,
    ItemView,
    MatchingItems,
    MatchingItemsView,
};
use crate::linz_s3_filter::extent::{
    any_bbox_overlaps,
    any_overlaps,
    corner_box,
    overlaps,
    Bbox,
    Ordinate,
};
use crate::linz_s3_filter::links::absolute_collection;
use crate::linz_s3_filter::reporter::Reporter;
use crate::linz_s3_filter::text::{contains, is_substring, text_or_empty};
use crate::linz_s3_filter::utils::{
    assembled,
    collection_result,
    collection_urls,
    get_hrefs,
    is_ranking,
    is_spatially_rejected,
    process_collection,
    query_box,
    rank_lt,
    reporter_after_collection,
    urls_to_fetch,
};

verus! {

/// A spatial pre-filter: a first corner as latitude and longitude, and
/// optionally the latitude and the longitude of the opposite corner.
pub type Extent = (Ordinate, Ordinate, Option<Ordinate>, Option<Ordinate>);

/// `name` is part of the collection's identifier or of its title.
pub open spec fn name_matches(c: CollectionView, name: Seq<char>) -> bool {
    is_substring(c.id, name) || is_substring(text_or_empty(c.title), name)
}

/// Some name of `names` is part of the collection's identifier or title.
pub open spec fn any_name_matches(c: CollectionView, names: Seq<String>) -> bool {
    exists|i: int| 0 <= i < names.len() && name_matches(c, #[trigger] names[i]@)
}

/// A collection is included when no names are asked for, or when one of them
/// matches.
pub open spec fn is_included(c: CollectionView, inclusion: Option<Seq<String>>) -> bool {
    match inclusion {
        None => true,
        Some(names) => names.len() == 0 || any_name_matches(c, names),
    }
}

/// A collection is excluded when exclusion names are given and one matches.
pub open spec fn is_excluded(c: CollectionView, exclusion: Option<Seq<String>>) -> bool {
    match exclusion {
        None => false,
        Some(names) => any_name_matches(c, names),
    }
}

/// The rectangle of a spatial pre-filter. A missing second ordinate repeats
/// the first, so a lone corner is a point; on each axis the smaller of the
/// two ordinates is the lower side and the larger the upper side, whichever
/// corner is given first.
pub open spec fn extent_box(extent: Extent) -> Bbox {
    corner_box(
        extent.1,
        extent.0,
        match extent.3 {
            Some(x) => x,
            None => extent.1,
        },
        match extent.2 {
            Some(y) => y,
            None => extent.0,
        },
    )
}

/// A collection lies within the extent when none is given, or when one of
/// its boxes overlaps the extent's rectangle.
pub open spec fn is_within_extent(c: CollectionView, extent: Option<Extent>) -> bool {
    match extent {
        None => true,
        Some(e) => any_overlaps(c.bbox, extent_box(e)),
    }
}

/// The filter on one collection. Exclusion takes precedence over inclusion.
pub open spec fn passes_filter(
    c: CollectionView,
    inclusion: Option<Seq<String>>,
    exclusion: Option<Seq<String>>,
    extent: Option<Extent>,
) -> bool {
    is_included(c, inclusion) && !is_excluded(c, exclusion) && is_within_extent(c, extent)
}

/// The filter as a predicate on collections.
pub open spec fn filter_pred(
    inclusion: Option<Seq<String>>,
    exclusion: Option<Seq<String>>,
    extent: Option<Extent>,
) -> spec_fn(CollectionView) -> bool {
    |c: CollectionView| passes_filter(c, inclusion, exclusion, extent)
}

/// The names behind an optional slice.
pub open spec fn names_of(names: Option<&[String]>) -> Option<Seq<String>> {
    match names {
        Some(s) => Some(s@),
        None => None,
    }
}

/// Whether some name of `names` is part of the collection's identifier or
/// title.
pub fn matches_any_name(collection: &Collection, names: &[String]) -> (r: bool)
    ensures
        r == any_name_matches(collection.deep_view(), names@),
{
    let mut i: usize = 0;
    while i < names.len()
        invariant
            i <= names.len(),
            forall|j: int| 0 <= j < i ==> !name_matches(collection.deep_view(), #[trigger] names@[j]@),
        decreases names.len() - i,
    {
        let name: &str = names[i].as_str();
        let in_id = contains(collection.id.as_str(), name);
        let in_title = match &collection.title {
            Some(t) => contains(t.as_str(), name),
            None => contains("", name),
        };
        proof {
            reveal_strlit("");
            assert(collection.title is None ==> ""@ =~= text_or_empty(
                collection.deep_view().title,
            ));
        }
        if in_id || in_title {
            return true;
        }
        i += 1;
    }
    false
}

/// The filter on one collection.
pub fn collection_passes(
    collection: &Collection,
    inclusion: Option<&[String]>,
    exclusion: Option<&[String]>,
    extent: Option<Extent>,
) -> (r: bool)
    ensures
        r == passes_filter(collection.deep_view(), names_of(inclusion), names_of(exclusion), extent),
{
    let included = match inclusion {
        None => true,
        Some(names) => names.len() == 0 || matches_any_name(collection, names),
    };
    let excluded = match exclusion {
        None => false,
        Some(names) => matches_any_name(collection, names),
    };
    let within = match extent {
        None => true,
        Some((lat1, lon1, lat2_opt, lon2_opt)) => {
            let lon2 = match lon2_opt {
                Some(x) => x,
                None => lon1,
            };
            let lat2 = match lat2_opt {
                Some(y) => y,
                None => lat1,
            };
            let query = Bbox::from_corners(lon1, lat1, lon2, lat2);
            any_bbox_overlaps(&collection.bbox, &query)
        },
    };
    included && !excluded && within
}

/// A session on one bucket.
pub struct LinzBucket {
    /// Every collection of the catalog that could be read.
    pub collections: Vec<Collection>,
    /// The collections that passed the last filter, once one was set.
    pub filtered_collections: Option<Vec<Collection>>,
    pub reporter: Reporter,
    /// How many fetches may run at the same time.
    pub permits: usize,
}

/// The rectangle of a pre-filter does not depend on which corner comes
/// first, and with both corners it is the rectangle that the search itself
/// asks for.
pub proof fn lemma_extent_is_normalised(
    lat1: Ordinate,
    lon1: Ordinate,
    lat2: Ordinate,
    lon2: Ordinate,
)
    ensures
        extent_box((lat1, lon1, Some(lat2), Some(lon2))) == extent_box(
            (lat2, lon2, Some(lat1), Some(lon1)),
        ),
        query_box(Some(lon1), Some(lat1), Some(lon2), Some(lat2)) == Some(
            extent_box((lat1, lon1, Some(lat2), Some(lon2))),
        ),
        extent_box((lat1, lon1, Some(lat2), Some(lon2))).xmin <= extent_box(
            (lat1, lon1, Some(lat2), Some(lon2)),
        ).xmax,
        extent_box((lat1, lon1, Some(lat2), Some(lon2))).ymin <= extent_box(
            (lat1, lon1, Some(lat2), Some(lon2)),
        ).ymax,
{
}

/// The pre-filter drops no collection that the search with the same corners
/// would go on to fetch: a collection that the search does not reject by
/// place lies within the extent.
pub proof fn lemma_extent_keeps_what_search_keeps(c: CollectionView, extent: Extent)
    requires
        !is_spatially_rejected(c, query_box(Some(extent.1), Some(extent.0), extent.3, extent.2)),
    ensures
        is_within_extent(c, Some(extent)),
{
    let query = query_box(Some(extent.1), Some(extent.0), extent.3, extent.2)->0;
    let i = choose|i: int| 0 <= i < c.bbox.len() && overlaps(#[trigger] c.bbox[i], query);
    assert(overlaps(c.bbox[i], extent_box(extent)));
}

/// Without names and without an extent every collection passes.
pub proof fn lemma_no_filter_keeps_all(all: Seq<CollectionView>)
    ensures
        all.filter(filter_pred(None, None, None)) == all,
    decreases all.len(),
{
    reveal(Seq::filter);
    if all.len() > 0 {
        lemma_no_filter_keeps_all(all.drop_last());
        assert(all.drop_last().push(all.last()) =~= all);
    }
}

/// Exclusion takes precedence: a collection that an exclusion name matches
/// is dropped, whatever the inclusion names and the extent are. With the same
/// names on both sides no collection that they match is kept.
pub proof fn lemma_exclusion_beats_inclusion(
    c: CollectionView,
    inclusion: Option<Seq<String>>,
    names: Seq<String>,
    extent: Option<Extent>,
)
    requires
        any_name_matches(c, names),
    ensures
        !passes_filter(c, inclusion, Some(names), extent),
        !passes_filter(c, Some(names), Some(names), extent),
{
}

/// No collection of a filtered view is matched by an exclusion name.
pub proof fn lemma_filtered_view_has_no_excluded(
    all: Seq<CollectionView>,
    inclusion: Option<Seq<String>>,
    exclusion: Seq<String>,
    extent: Option<Extent>,
    i: int,
)
    requires
        0 <= i < all.filter(filter_pred(inclusion, Some(exclusion), extent)).len(),
    ensures
        !any_name_matches(all.filter(filter_pred(inclusion, Some(exclusion), extent))[i], exclusion),
{
    let pred = filter_pred(inclusion, Some(exclusion), extent);
    all.lemma_filter_pred(pred, i);
}

/// The location of the root catalog of a bucket.
pub open spec fn catalog_location(dataset: BucketName) -> Seq<char> {
    crate::linz_s3_filter::dataset::bucket_base(dataset) + "/catalog.json"@
}

/// The location of the root catalog of a bucket.
pub fn catalog_url(dataset: BucketName) -> (url: String)
    ensures
        url@ == catalog_location(dataset),
{
    let mut url = dataset.as_str().to_owned();
    url.append("/catalog.json");
    url
}

/// How many fetches may run at once: the parallelism of the machine times
/// the multiplier, which is 1 where none is given; never less than 1, and
/// never more than a machine word holds.
pub open spec fn budget(multiplier: Option<usize>, parallelism: usize) -> usize {
    let product = (match multiplier {
        Some(m) => m,
        None => 1,
    }) * parallelism;
    if product < 1 {
        1
    } else if product > usize::MAX {
        usize::MAX
    } else {
        product as usize
    }
}

/// How many fetches may run at once on a machine of the given parallelism.
pub fn concurrency_budget(multiplier: Option<usize>, parallelism: usize) -> (permits: usize)
    ensures
        permits == budget(multiplier, parallelism),
        permits >= 1,
{
    let m: usize = match multiplier {
        Some(m) => m,
        None => 1,
    };
    match m.checked_mul(parallelism) {
        Some(product) => if product < 1 {
            1
        } else {
            product
        },
        None => usize::MAX,
    }
}

/// Asks `num_cpus::get` for the number of processors that this process can
/// use. The number depends on the machine and the moment, and the contract
/// claims nothing of it.
#[verifier::external_body]
fn available_parallelism() -> (n: usize) {
    num_cpus::get()
}

/// How many fetches may run at once on this machine: the budget of some
/// parallelism of at least 1. With a multiplier it is therefore at least
/// the multiplier, short of what a machine word holds.
pub fn available_budget(multiplier: Option<usize>) -> (permits: usize)
    ensures
        permits >= 1,
        exists|parallelism: usize|
            parallelism >= 1 && permits == #[trigger] budget(multiplier, parallelism),
{
    let drawn = available_parallelism();
    // A machine that reports no processor still runs this one.
    let parallelism = if drawn < 1 {
        1
    } else {
        drawn
    };
    concurrency_budget(multiplier, parallelism)
}

/// Takes an outcome as it is: one that holds something is kept.
pub open spec fn as_given<T>() -> spec_fn(Option<T>) -> Option<T> {
    |f: Option<T>| f
}

/// What some outcomes hold, in their order: the empty ones are left out.
pub open spec fn given<T>(outcomes: Seq<Option<T>>) -> Seq<T> {
    outcomes.filter_map(as_given())
}

/// What the fetch of a child collection adds to a session: the collection
/// with its links made absolute, if it arrived and its links can be made so.
pub open spec fn as_admitted() -> spec_fn(Option<CollectionView>) -> Option<CollectionView> {
    |f: Option<CollectionView>|
        match f {
            Some(c) => absolute_collection(c),
            None => None,
        }
}

/// The collections of a session, for the given outcomes of fetching the
/// children of its catalog: those that arrived, in the order of the fetches
/// and with their links made absolute.
pub open spec fn admitted(children: Seq<Option<CollectionView>>) -> Seq<CollectionView> {
    children.filter_map(as_admitted())
}

/// The outcomes of the fetches for the collection at position `i` of the
/// working set; none where `fetched` has no entry for it.
pub open spec fn outcomes_for(fetched: Seq<Seq<Option<ItemView>>>, i: int) -> Seq<
    Option<ItemView>,
> {
    if 0 <= i < fetched.len() {
        fetched[i]
    } else {
        Seq::empty()
    }
}

/// What each collection of the working set gives in a search.
pub open spec fn search_outcomes(
    working_set: Seq<CollectionView>,
    query: Option<Bbox>,
    fetched: Seq<Seq<Option<ItemView>>>,
) -> Seq<Option<MatchingItemsView>> {
    Seq::new(
        working_set.len(),
        |i: int| collection_result(working_set[i], query, outcomes_for(fetched, i)),
    )
}

/// The matches of a search: what the collections of the working set give,
/// in their order, those that give nothing left out.
pub open spec fn search_matches(
    working_set: Seq<CollectionView>,
    query: Option<Bbox>,
    fetched: Seq<Seq<Option<ItemView>>>,
) -> Seq<MatchingItemsView> {
    given(search_outcomes(working_set, query, fetched))
}

/// The reporter after the first `n` collections of a search.
pub open spec fn reporter_after(
    working_set: Seq<CollectionView>,
    query: Option<Bbox>,
    fetched: Seq<Seq<Option<ItemView>>>,
    n: int,
) -> Reporter
    decreases n,
{
    if n <= 0 {
        Reporter {
            urls_read: 0,
            urls_total: 0,
            collections_read: 0,
            open_threads: 0,
            collections_total: working_set.len() as usize,
            stop_flag: false,
        }
    } else {
        reporter_after_collection(
            reporter_after(working_set, query, fetched, n - 1),
            working_set[n - 1],
            query,
            outcomes_for(fetched, n - 1).len() as usize,
        )
    }
}

/// A search reports every collection it has been through, whether the
/// collection was rejected by place or its items were fetched; it leaves
/// no worker open and does not stop the reporter before its end.
pub proof fn lemma_search_reports_every_collection(
    working_set: Seq<CollectionView>,
    query: Option<Bbox>,
    fetched: Seq<Seq<Option<ItemView>>>,
    n: int,
)
    requires
        0 <= n <= working_set.len() <= usize::MAX,
    ensures
        reporter_after(working_set, query, fetched, n).collections_read == n,
        reporter_after(working_set, query, fetched, n).collections_total == working_set.len(),
        reporter_after(working_set, query, fetched, n).open_threads == 0,
        !reporter_after(working_set, query, fetched, n).stop_flag,
    decreases n,
{
    if n > 0 {
        lemma_search_reports_every_collection(working_set, query, fetched, n - 1);
    }
}

/// Every match of a search has the title of a collection of the working
/// set that the search did not reject by place.
pub proof fn lemma_match_comes_from_working_set(
    working_set: Seq<CollectionView>,
    query: Option<Bbox>,
    fetched: Seq<Seq<Option<ItemView>>>,
    k: int,
)
    requires
        0 <= k < search_matches(working_set, query, fetched).len(),
    ensures
        exists|i: int|
            0 <= i < working_set.len() && !is_spatially_rejected(#[trigger] working_set[i], query)
                && search_matches(working_set, query, fetched)[k].title == text_or_empty(
                working_set[i].title,
            ),
{
    let outcomes = search_outcomes(working_set, query, fetched);
    let matches = search_matches(working_set, query, fetched);
    let m = matches[k];
    assert(matches.contains(m));
    outcomes.lemma_filter_map_contains(as_given(), m);
    let t = choose|t: Option<MatchingItemsView>| #[trigger]
        outcomes.contains(t) && t == Some(m);
    let i = choose|i: int| 0 <= i < outcomes.len() && outcomes[i] == t;
    assert(collection_result(working_set[i], query, outcomes_for(fetched, i)) == Some(m));
    assert(!is_spatially_rejected(working_set[i], query));
}

/// A search whose rectangle no collection of the working set overlaps
/// has no match.
pub proof fn lemma_search_outside_is_empty(
    working_set: Seq<CollectionView>,
    query: Option<Bbox>,
    fetched: Seq<Seq<Option<ItemView>>>,
)
    requires
        forall|i: int|
            0 <= i < working_set.len() ==> is_spatially_rejected(#[trigger] working_set[i], query),
    ensures
        search_matches(working_set, query, fetched).len() == 0,
{
    if search_matches(working_set, query, fetched).len() > 0 {
        lemma_match_comes_from_working_set(working_set, query, fetched, 0);
    }
}

/// After a filter with exclusion names, no title that a search returns
/// holds one of those names.
pub proof fn lemma_excluded_names_stay_out(
    all: Seq<CollectionView>,
    inclusion: Option<Seq<String>>,
    exclusion: Seq<String>,
    extent: Option<Extent>,
    query: Option<Bbox>,
    fetched: Seq<Seq<Option<ItemView>>>,
    k: int,
    n: int,
)
    requires
        0 <= k < search_matches(
            all.filter(filter_pred(inclusion, Some(exclusion), extent)),
            query,
            fetched,
        ).len(),
        0 <= n < exclusion.len(),
    ensures
        !is_substring(
            search_matches(
                all.filter(filter_pred(inclusion, Some(exclusion), extent)),
                query,
                fetched,
            )[k].title,
            exclusion[n]@,
        ),
{
    let working_set = all.filter(filter_pred(inclusion, Some(exclusion), extent));
    lemma_match_comes_from_working_set(working_set, query, fetched, k);
    let i = choose|i: int|
        0 <= i < working_set.len() && !is_spatially_rejected(#[trigger] working_set[i], query)
            && search_matches(working_set, query, fetched)[k].title == text_or_empty(
            working_set[i].title,
        );
    lemma_filtered_view_has_no_excluded(all, inclusion, exclusion, extent, i);
    assert(!name_matches(working_set[i], exclusion[n]@));
}

impl LinzBucket {
    /// The collections that a search runs over: the filtered view if there
    /// is one, else all of them.
    pub open spec fn working_set(&self) -> Seq<CollectionView> {
        match self.filtered_collections {
            Some(f) => f.deep_view(),
            None => self.collections.deep_view(),
        }
    }

    /// Derives the filtered view anew from the full list of collections: a
    /// collection stays when it is included, not excluded and within the
    /// extent. The order of the collections is kept.
    pub fn set_collection_filter(
        &mut self,
        collection_name_filters: Option<&[String]>,
        exclusion_filters: Option<&[String]>,
        extent: Option<Extent>,
    )
        ensures
            final(self).collections == old(self).collections,
            final(self).reporter == old(self).reporter,
            final(self).permits == old(self).permits,
            final(self).filtered_collections is Some,
            final(self).working_set() == old(self).collections.deep_view().filter(
                filter_pred(names_of(collection_name_filters), names_of(exclusion_filters), extent),
            ),
            collection_name_filters is None && exclusion_filters is None && extent is None
                ==> final(self).working_set() == old(self).collections.deep_view(),
    {
        let ghost pred = filter_pred(
            names_of(collection_name_filters),
            names_of(exclusion_filters),
            extent,
        );
        let ghost all = self.collections.deep_view();
        let mut filtered: Vec<Collection> = Vec::new();
        let mut i: usize = 0;
        assert(all.subrange(0, 0).filter(pred) =~= Seq::<CollectionView>::empty()) by {
            reveal(Seq::filter);
        }
        while i < self.collections.len()
            invariant
                i <= self.collections.len(),
                all == self.collections.deep_view(),
                *self == *old(self),
                pred == filter_pred(
                    names_of(collection_name_filters),
                    names_of(exclusion_filters),
                    extent,
                ),
                filtered.deep_view() == all.subrange(0, i as int).filter(pred),
            decreases self.collections.len() - i,
        {
            let collection = &self.collections[i];
            let ghost before = filtered.deep_view();
            proof {
                all.subrange(0, i as int).lemma_filter_push(all[i as int], pred);
                assert(all.subrange(0, i as int).push(all[i as int]) =~= all.subrange(
                    0,
                    i + 1,
                ));
            }
            if collection_passes(collection, collection_name_filters, exclusion_filters, extent) {
                let copy = collection.clone();
                filtered.push(copy);
                assert(filtered.deep_view() =~= before.push(all[i as int]));
            }
            i += 1;
        }
        proof {
            assert(all.subrange(0, i as int) =~= all);
            if collection_name_filters is None && exclusion_filters is None && extent is None {
                lemma_no_filter_keeps_all(all);
            }
        }
        self.filtered_collections = Some(filtered);
    }

    /// The session on a catalog whose child collections were fetched with
    /// the outcomes `children` (`None` for a fetch that failed), on a
    /// machine of the given parallelism: it holds the collections that
    /// arrived, in their order and with their links made absolute, no
    /// filtered view, a fresh reporter, and the budget of concurrent
    /// fetches. A collection whose links cannot be made absolute is left
    /// out like one that did not arrive.
    pub fn with_parallelism(
        children: &Vec<Option<Collection>>,
        concurrency_multiplier: Option<usize>,
        parallelism: usize,
    ) -> (bucket: LinzBucket)
        ensures
            bucket.collections.deep_view() == admitted(children.deep_view()),
            bucket.filtered_collections is None,
            bucket.reporter.is_fresh(bucket.collections.len()),
            bucket.permits == budget(concurrency_multiplier, parallelism),
    {
        let ghost all = children.deep_view();
        let ghost keep = as_admitted();
        let mut collections: Vec<Collection> = Vec::new();
        let mut i: usize = 0;
        assert(collections.deep_view() =~= all.take(0).filter_map(keep));
        while i < children.len()
            invariant
                i <= children.len(),
                all == children.deep_view(),
                keep == as_admitted(),
                collections.deep_view() == all.take(i as int).filter_map(keep),
            decreases children.len() - i,
        {
            let ghost before = collections.deep_view();
            proof {
                all.lemma_filter_map_take_succ(keep, i as int);
            }
            match &children[i] {
                Some(collection) => {
                    let mut copy = collection.clone();
                    match copy.make_links_absolute() {
                        Ok(_) => {
                            let ghost view = copy.deep_view();
                            collections.push(copy);
                            assert(collections.deep_view() =~= before + seq![view]);
                        },
                        Err(_) => {},
                    }
                },
                None => {},
            }
            i += 1;
        }
        assert(all.take(i as int) =~= all);
        let collections_total = collections.len();
        LinzBucket {
            collections,
            filtered_collections: None,
            reporter: Reporter::new(collections_total),
            permits: concurrency_budget(concurrency_multiplier, parallelism),
        }
    }

    /// The session on a catalog whose child collections were fetched with
    /// the outcomes `children`, on this machine. The budget of concurrent
    /// fetches is that of some parallelism of at least 1.
    pub fn initialise_catalog(
        children: &Vec<Option<Collection>>,
        concurrency_multiplier: Option<usize>,
    ) -> (bucket: LinzBucket)
        ensures
            bucket.collections.deep_view() == admitted(children.deep_view()),
            bucket.filtered_collections is None,
            bucket.reporter.is_fresh(bucket.collections.len()),
            bucket.permits >= 1,
            exists|parallelism: usize|
                parallelism >= 1 && bucket.permits == #[trigger] budget(
                    concurrency_multiplier,
                    parallelism,
                ),
    {
        let drawn = available_parallelism();
        let parallelism = if drawn < 1 {
            1
        } else {
            drawn
        };
        LinzBucket::with_parallelism(children, concurrency_multiplier, parallelism)
    }

    /// The item documents that a search fetches, for each collection of the
    /// working set in turn: none for a collection that the rectangle asked
    /// for rejects.
    pub fn item_urls(
        &self,
        lat1_opt: Option<Ordinate>,
        lon1_opt: Option<Ordinate>,
        lat2_opt: Option<Ordinate>,
        lon2_opt: Option<Ordinate>,
    ) -> (urls: Vec<Vec<String>>)
        ensures
            urls.len() == self.working_set().len(),
            forall|i: int|
                0 <= i < urls.len() ==> #[trigger] urls.deep_view()[i] == urls_to_fetch(
                    self.working_set()[i],
                    query_box(lon1_opt, lat1_opt, lon2_opt, lat2_opt),
                ),
    {
        let working: &Vec<Collection> = match &self.filtered_collections {
            Some(f) => f,
            None => &self.collections,
        };
        let mut urls: Vec<Vec<String>> = Vec::new();
        let mut i: usize = 0;
        while i < working.len()
            invariant
                i <= working.len(),
                working.deep_view() == self.working_set(),
                urls.len() == i,
                forall|j: int|
                    0 <= j < i ==> #[trigger] urls.deep_view()[j] == urls_to_fetch(
                        self.working_set()[j],
                        query_box(lon1_opt, lat1_opt, lon2_opt, lat2_opt),
                    ),
            decreases working.len() - i,
        {
            let ghost before = urls.deep_view();
            let next = collection_urls(&working[i], lon1_opt, lat1_opt, lon2_opt, lat2_opt);
            let ghost added = next.deep_view();
            urls.push(next);
            assert(urls.deep_view() =~= before.push(added));
            i += 1;
        }
        urls
    }

    /// The search over the working set, given the outcomes of the fetches:
    /// `fetched[i]` holds, for the collection at position `i` of the
    /// working set, what fetching each of its item documents gave (`None`
    /// for a fetch that failed). The matches of the collections become
    /// groups of asset locations, ranked by the resolution hint of their
    /// titles. The reporter starts anew, counts every collection and
    /// document, and is stopped at the end.
    pub fn get_tiles(
        &mut self,
        lat1_opt: Option<Ordinate>,
        lon1_opt: Option<Ordinate>,
        lat2_opt: Option<Ordinate>,
        lon2_opt: Option<Ordinate>,
        fetched: &Vec<Vec<Option<Item>>>,
    ) -> (tiles: Vec<(Vec<String>, String)>)
        ensures
            final(self).collections == old(self).collections,
            final(self).filtered_collections == old(self).filtered_collections,
            final(self).permits == old(self).permits,
            final(self).reporter == (Reporter {
                stop_flag: true,
                ..reporter_after(
                    old(self).working_set(),
                    query_box(lon1_opt, lat1_opt, lon2_opt, lat2_opt),
                    fetched.deep_view(),
                    old(self).working_set().len() as int,
                )
            }),
            final(self).reporter.collections_read == old(self).working_set().len(),
            final(self).reporter.collections_total == old(self).working_set().len(),
            exists|order: Seq<int>|
                is_ranking(
                    assembled(
                        search_matches(
                            old(self).working_set(),
                            query_box(lon1_opt, lat1_opt, lon2_opt, lat2_opt),
                            fetched.deep_view(),
                        ),
                    ),
                    order,
                    tiles.deep_view(),
                ),
            tiles.len() == search_matches(
                old(self).working_set(),
                query_box(lon1_opt, lat1_opt, lon2_opt, lat2_opt),
                fetched.deep_view(),
            ).len(),
            forall|i: int, j: int|
                0 <= i < j < tiles.len() ==> !rank_lt(
                    #[trigger] tiles.deep_view()[j].1,
                    #[trigger] tiles.deep_view()[i].1,
                ),
    {
        let ghost working_set = self.working_set();
        let ghost query = query_box(lon1_opt, lat1_opt, lon2_opt, lat2_opt);
        let ghost outcomes = search_outcomes(working_set, query, fetched.deep_view());
        let ghost keep = as_given::<MatchingItemsView>();
        let working: &Vec<Collection> = match &self.filtered_collections {
            Some(f) => f,
            None => &self.collections,
        };
        let mut reporter = self.reporter;
        reporter.reset_all(working.len());
        let nothing: Vec<Option<Item>> = Vec::new();
        assert(nothing.deep_view() =~= Seq::<Option<ItemView>>::empty());
        let mut results: Vec<MatchingItems> = Vec::new();
        let mut i: usize = 0;
        assert(results.deep_view() =~= outcomes.take(0).filter_map(keep));
        while i < working.len()
            invariant
                i <= working.len(),
                working.deep_view() == working_set,
                query == query_box(lon1_opt, lat1_opt, lon2_opt, lat2_opt),
                outcomes == search_outcomes(working_set, query, fetched.deep_view()),
                keep == as_given::<MatchingItemsView>(),
                nothing.deep_view() == Seq::<Option<ItemView>>::empty(),
                results.deep_view() == outcomes.take(i as int).filter_map(keep),
                reporter == reporter_after(working_set, query, fetched.deep_view(), i as int),
            decreases working.len() - i,
        {
            let ghost before = results.deep_view();
            proof {
                outcomes.lemma_filter_map_take_succ(keep, i as int);
            }
            let arrived_items: &Vec<Option<Item>> = if i < fetched.len() {
                &fetched[i]
            } else {
                &nothing
            };
            assert(arrived_items.deep_view() == outcomes_for(fetched.deep_view(), i as int));
            let found = process_collection(
                &working[i],
                &mut reporter,
                arrived_items,
                lon1_opt,
                lat1_opt,
                lon2_opt,
                lat2_opt,
            );
            match found {
                Some(m) => {
                    let ghost view = m.deep_view();
                    results.push(m);
                    assert(results.deep_view() =~= before + seq![view]);
                },
                None => {},
            }
            i += 1;
        }
        assert(outcomes.take(i as int) =~= outcomes);
        proof {
            lemma_search_reports_every_collection(
                working_set,
                query,
                fetched.deep_view(),
                working_set.len() as int,
            );
        }
        reporter.stop();
        self.reporter = reporter;
        let ghost matches = results.deep_view();
        assert(matches == search_matches(working_set, query, fetched.deep_view()));
        let tiles = get_hrefs(results);
        proof {
            let order = choose|order: Seq<int>|
                is_ranking(assembled(matches), order, tiles.deep_view());
            assert(is_ranking(assembled(matches), order, tiles.deep_view()));
        }
        tiles
    }

    /// The search over the working set without a rectangle: every item
    /// that arrived is kept.
    pub fn get_all_tiles(&mut self, fetched: &Vec<Vec<Option<Item>>>) -> (tiles: Vec<
        (Vec<String>, String),
    >)
        ensures
            final(self).collections == old(self).collections,
            final(self).filtered_collections == old(self).filtered_collections,
            final(self).permits == old(self).permits,
            final(self).reporter == (Reporter {
                stop_flag: true,
                ..reporter_after(
                    old(self).working_set(),
                    None,
                    fetched.deep_view(),
                    old(self).working_set().len() as int,
                )
            }),
            exists|order: Seq<int>|
                is_ranking(
                    assembled(search_matches(old(self).working_set(), None, fetched.deep_view())),
                    order,
                    tiles.deep_view(),
                ),
            forall|i: int, j: int|
                0 <= i < j < tiles.len() ==> !rank_lt(
                    #[trigger] tiles.deep_view()[j].1,
                    #[trigger] tiles.deep_view()[i].1,
                ),
    {
        self.get_tiles(None, None, None, None, fetched)
    }
}

} // verus!
