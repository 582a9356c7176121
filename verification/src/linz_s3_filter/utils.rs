//! The steps of a search: which item documents a collection asks for, which
//! fetched items it keeps, and how the matches become ranked groups of asset
//! locations.

use vstd::prelude::*;
use vstd::seq_lib::seq_to_set_is_finite;
use vstd::set_lib::{lemma_int_range, lemma_subset_equality, set_int_range};
use crate::linz_s3_filter::dataset::{
    Catalog,
    Collection,
    CollectionView,
    Item,
    ItemView,
    Link,
    LinkView,
    MatchingItems,
    MatchingItemsView,
};
use crate::linz_s3_filter::extent::{
    any_bbox_overlaps,
    any_overlaps,
    corner_box,
    overlaps,
    point_box,
    Bbox,
    Ordinate,
};
use crate::linz_s3_filter::reporter::{wrapped_sum, Reporter};
use crate::linz_s3_filter::resolution::{
    chars_before,
    hint_lt,
    hint_of_capture,
    lemma_hint_total,
    lemma_hint_transitive,
    lemma_lex_total,
    lemma_lex_transitive,
    lex_lt,
    resolution_of_capture,
    HintView,
    ResolutionHint,
};
use crate::linz_s3_filter::text::{
    chars_of,
    has_prefix,
    same_text,
    starts_with,
    text_or_empty,
};

verus! {

/// The rectangle that a search asks for. Without a first corner there is
/// none, and nothing is filtered by place; with a first corner alone it is
/// that point; with both corners it is the box they span.
pub open spec fn query_box(
    lon1: Option<Ordinate>,
    lat1: Option<Ordinate>,
    lon2: Option<Ordinate>,
    lat2: Option<Ordinate>,
) -> Option<Bbox> {
    if lon1 is Some && lat1 is Some {
        if lon2 is Some && lat2 is Some {
            Some(corner_box(lon1->0, lat1->0, lon2->0, lat2->0))
        } else {
            Some(point_box(lon1->0, lat1->0))
        }
    } else {
        None
    }
}

/// The rectangle that a search asks for.
pub fn make_query_box(
    lon1_opt: Option<Ordinate>,
    lat1_opt: Option<Ordinate>,
    lon2_opt: Option<Ordinate>,
    lat2_opt: Option<Ordinate>,
) -> (r: Option<Bbox>)
    ensures
        r == query_box(lon1_opt, lat1_opt, lon2_opt, lat2_opt),
{
    match (lon1_opt, lat1_opt) {
        (Some(lon1), Some(lat1)) => match (lon2_opt, lat2_opt) {
            (Some(lon2), Some(lat2)) => Some(Bbox::from_corners(lon1, lat1, lon2, lat2)),
            _ => Some(Bbox::point(lon1, lat1)),
        },
        _ => None,
    }
}

/// A link that leads to an item document.
pub open spec fn is_item_link(link: LinkView) -> bool {
    link.rel == "item"@
}

/// A link that leads to a child collection.
pub open spec fn is_child_link(link: LinkView) -> bool {
    link.rel == "child"@
}

/// The links that lead to item documents.
pub open spec fn item_link_pred() -> spec_fn(LinkView) -> bool {
    |l: LinkView| is_item_link(l)
}

/// The links that lead to child collections.
pub open spec fn child_link_pred() -> spec_fn(LinkView) -> bool {
    |l: LinkView| is_child_link(l)
}

/// The location that a link leads to.
pub open spec fn href_of() -> spec_fn(LinkView) -> Seq<char> {
    |l: LinkView| l.href
}

/// The locations of the item documents of a collection, in the order of its
/// links.
pub open spec fn item_urls(links: Seq<LinkView>) -> Seq<Seq<char>> {
    links.filter(item_link_pred()).map_values(href_of())
}

/// The locations of the child collections of a catalog, in the order of its
/// links.
pub open spec fn child_urls(links: Seq<LinkView>) -> Seq<Seq<char>> {
    links.filter(child_link_pred()).map_values(href_of())
}

/// A collection is rejected by place when a rectangle is asked for and none
/// of its boxes overlaps it.
pub open spec fn is_spatially_rejected(c: CollectionView, query: Option<Bbox>) -> bool {
    query is Some && !any_overlaps(c.bbox, query->0)
}

/// The item documents that a search fetches for one collection: none when
/// the collection is rejected by place, else all of them.
pub open spec fn urls_to_fetch(c: CollectionView, query: Option<Bbox>) -> Seq<Seq<char>> {
    if is_spatially_rejected(c, query) {
        Seq::empty()
    } else {
        item_urls(c.links)
    }
}

/// A fetched item is kept when no rectangle is asked for, or when the item
/// has a box and that box overlaps the rectangle.
pub open spec fn item_matches(item: ItemView, query: Option<Bbox>) -> bool {
    match query {
        None => true,
        Some(q) => item.bbox is Some && overlaps(item.bbox->0, q),
    }
}

/// What one fetch contributes: the item if it arrived and matches, else
/// nothing.
pub open spec fn keep_fetched(query: Option<Bbox>) -> spec_fn(Option<ItemView>) -> Option<
    ItemView,
> {
    |f: Option<ItemView>|
        match f {
            Some(item) => if item_matches(item, query) {
                Some(item)
            } else {
                None
            },
            None => None,
        }
}

/// The items kept of the outcomes of a collection's fetches, in their order.
/// An outcome of `None` is a fetch that failed.
pub open spec fn kept_items(fetched: Seq<Option<ItemView>>, query: Option<Bbox>) -> Seq<
    ItemView,
> {
    fetched.filter_map(keep_fetched(query))
}

/// What the fetches of one collection give: nothing when no item is kept,
/// else the collection's title with the kept items.
pub open spec fn aggregated(
    c: CollectionView,
    query: Option<Bbox>,
    fetched: Seq<Option<ItemView>>,
) -> Option<MatchingItemsView> {
    if kept_items(fetched, query).len() == 0 {
        None
    } else {
        Some(
            MatchingItemsView {
                title: text_or_empty(c.title),
                items: kept_items(fetched, query),
            },
        )
    }
}

/// What the search of one collection gives: nothing when it is rejected by
/// place, else what its fetches give.
pub open spec fn collection_result(
    c: CollectionView,
    query: Option<Bbox>,
    fetched: Seq<Option<ItemView>>,
) -> Option<MatchingItemsView> {
    if is_spatially_rejected(c, query) {
        None
    } else {
        aggregated(c, query, fetched)
    }
}

/// The reporter after a collection whose items were fetched: `urls` more
/// documents announced, `fetched` more read, one more collection read.
pub open spec fn reporter_after_fetches(before: Reporter, urls: usize, fetched: usize) -> Reporter {
    Reporter {
        urls_total: wrapped_sum(before.urls_total, urls),
        urls_read: wrapped_sum(before.urls_read, fetched),
        collections_read: wrapped_sum(before.collections_read, 1),
        ..before
    }
}

/// The reporter after one collection of a search.
pub open spec fn reporter_after_collection(
    before: Reporter,
    c: CollectionView,
    query: Option<Bbox>,
    fetched: usize,
) -> Reporter {
    if is_spatially_rejected(c, query) {
        Reporter { collections_read: wrapped_sum(before.collections_read, 1), ..before }
    } else {
        reporter_after_fetches(before, item_urls(c.links).len() as usize, fetched)
    }
}

/// The locations of the links of `links` whose relation is `rel`.
fn urls_with_rel(links: &Vec<Link>, rel: &str) -> (urls: Vec<String>)
    ensures
        urls.deep_view() == links.deep_view().filter(|l: LinkView| l.rel == rel@).map_values(
            href_of(),
        ),
{
    let ghost all = links.deep_view();
    let ghost pred = |l: LinkView| l.rel == rel@;
    let mut urls: Vec<String> = Vec::new();
    let mut i: usize = 0;
    assert(all.subrange(0, 0).filter(pred) =~= Seq::<LinkView>::empty()) by {
        reveal(Seq::filter);
    }
    assert(urls.deep_view() =~= all.subrange(0, 0).filter(pred).map_values(href_of()));
    while i < links.len()
        invariant
            i <= links.len(),
            all == links.deep_view(),
            pred == (|l: LinkView| l.rel == rel@),
            urls.deep_view() == all.subrange(0, i as int).filter(pred).map_values(href_of()),
        decreases links.len() - i,
    {
        let link = &links[i];
        let ghost before = urls.deep_view();
        proof {
            all.subrange(0, i as int).lemma_filter_push(all[i as int], pred);
            assert(all.subrange(0, i as int).push(all[i as int]) =~= all.subrange(0, i + 1));
        }
        if same_text(link.rel.as_str(), rel) {
            urls.push(link.href.clone());
            assert(urls.deep_view() =~= before.push(all[i as int].href));
            assert(all.subrange(0, i as int).filter(pred).push(all[i as int]).map_values(
                href_of(),
            ) =~= before.push(all[i as int].href));
        }
        i += 1;
    }
    assert(all.subrange(0, i as int) =~= all);
    urls
}

/// The locations of the item documents of a collection, in the order of its
/// links.
pub fn extract_urls(collection: &Collection) -> (urls: Vec<String>)
    ensures
        urls.deep_view() == item_urls(collection.deep_view().links),
{
    let urls = urls_with_rel(&collection.links, "item");
    assert((|l: LinkView| l.rel == "item"@) =~= item_link_pred());
    urls
}

/// The locations of the child collections that a catalog leads to, in the
/// order of its links.
pub fn extract_child_urls(catalog: &Catalog) -> (urls: Vec<String>)
    ensures
        urls.deep_view() == child_urls(catalog.deep_view().links),
{
    let urls = urls_with_rel(&catalog.links, "child");
    assert((|l: LinkView| l.rel == "child"@) =~= child_link_pred());
    urls
}

/// The item documents to fetch for one collection of a search.
pub fn collection_urls(
    collection: &Collection,
    lon1_opt: Option<Ordinate>,
    lat1_opt: Option<Ordinate>,
    lon2_opt: Option<Ordinate>,
    lat2_opt: Option<Ordinate>,
) -> (urls: Vec<String>)
    ensures
        urls.deep_view() == urls_to_fetch(
            collection.deep_view(),
            query_box(lon1_opt, lat1_opt, lon2_opt, lat2_opt),
        ),
{
    match make_query_box(lon1_opt, lat1_opt, lon2_opt, lat2_opt) {
        Some(query) => {
            if any_bbox_overlaps(&collection.bbox, &query) {
                extract_urls(collection)
            } else {
                let urls: Vec<String> = Vec::new();
                assert(urls.deep_view() =~= Seq::<Seq<char>>::empty());
                urls
            }
        },
        None => extract_urls(collection),
    }
}

/// Whether a fetched item is kept under `query`.
pub fn item_is_kept(item: &Item, query: &Option<Bbox>) -> (r: bool)
    ensures
        r == item_matches(item.deep_view(), *query),
{
    match query {
        None => true,
        Some(q) => match &item.bbox {
            Some(b) => b.overlaps(q),
            None => false,
        },
    }
}

/// Counts the fetches of one collection and keeps the items that match.
fn collect_items(
    collection: &Collection,
    reporter: &mut Reporter,
    fetched: &Vec<Option<Item>>,
    query: Option<Bbox>,
) -> (r: Option<MatchingItems>)
    ensures
        r.deep_view() == aggregated(collection.deep_view(), query, fetched.deep_view()),
        *final(reporter) == reporter_after_fetches(
            *old(reporter),
            item_urls(collection.deep_view().links).len() as usize,
            fetched.len(),
        ),
{
    let title = match &collection.title {
        Some(t) => t.clone(),
        None => String::new(),
    };
    let urls = extract_urls(collection);
    reporter.add_urls(urls.len());
    let ghost announced = *reporter;
    let ghost outcomes = fetched.deep_view();
    let ghost keep = keep_fetched(query);
    let mut items: Vec<Item> = Vec::new();
    let mut i: usize = 0;
    assert(items.deep_view() =~= outcomes.subrange(0, 0).filter_map(keep));
    while i < fetched.len()
        invariant
            i <= fetched.len(),
            outcomes == fetched.deep_view(),
            keep == keep_fetched(query),
            items.deep_view() == outcomes.subrange(0, i as int).filter_map(keep),
            *reporter == (Reporter {
                urls_read: wrapped_sum(announced.urls_read, i),
                ..announced
            }),
        decreases fetched.len() - i,
    {
        reporter.add_thread();
        reporter.report_finished_url();
        reporter.report_finished_thread();
        let ghost before = items.deep_view();
        proof {
            let upto = outcomes.subrange(0, i + 1);
            assert(upto.drop_last() =~= outcomes.subrange(0, i as int));
            assert(upto.last() == outcomes[i as int]);
        }
        match &fetched[i] {
            Some(item) => {
                if item_is_kept(item, &query) {
                    items.push(item.clone());
                    assert(items.deep_view() =~= before + seq![outcomes[i as int]->0]);
                }
            },
            None => {},
        }
        i += 1;
    }
    assert(outcomes.subrange(0, i as int) =~= outcomes);
    reporter.report_finished_collection();
    if items.len() > 0 {
        Some(MatchingItems { title, items })
    } else {
        None
    }
}

/// The fetches of one collection under a rectangle, given the outcomes of
/// fetching its item documents (`None` for a fetch that failed): an item is
/// kept when its box overlaps the rectangle. The reporter counts the
/// documents announced and read, and the collection.
pub fn add_collection_with_spatial_filter(
    collection: &Collection,
    reporter: &mut Reporter,
    fetched: &Vec<Option<Item>>,
    lon_min: Ordinate,
    lat_min: Ordinate,
    lon_max: Ordinate,
    lat_max: Ordinate,
) -> (r: Option<MatchingItems>)
    ensures
        r.deep_view() == aggregated(
            collection.deep_view(),
            Some(Bbox { xmin: lon_min, ymin: lat_min, xmax: lon_max, ymax: lat_max }),
            fetched.deep_view(),
        ),
        *final(reporter) == reporter_after_fetches(
            *old(reporter),
            item_urls(collection.deep_view().links).len() as usize,
            fetched.len(),
        ),
{
    let query = Bbox { xmin: lon_min, ymin: lat_min, xmax: lon_max, ymax: lat_max };
    collect_items(collection, reporter, fetched, Some(query))
}

/// The fetches of one collection when no rectangle is asked for: every item
/// that arrived is kept.
pub fn add_collection_without_filters(
    collection: &Collection,
    reporter: &mut Reporter,
    fetched: &Vec<Option<Item>>,
) -> (r: Option<MatchingItems>)
    ensures
        r.deep_view() == aggregated(collection.deep_view(), None, fetched.deep_view()),
        *final(reporter) == reporter_after_fetches(
            *old(reporter),
            item_urls(collection.deep_view().links).len() as usize,
            fetched.len(),
        ),
{
    collect_items(collection, reporter, fetched, None)
}

/// The search of one collection, given the outcomes of fetching its item
/// documents. A collection that no box of which overlaps the rectangle asked
/// for is counted as read and gives nothing, whatever `fetched` holds.
pub fn process_collection(
    collection: &Collection,
    reporter: &mut Reporter,
    fetched: &Vec<Option<Item>>,
    lon1_opt: Option<Ordinate>,
    lat1_opt: Option<Ordinate>,
    lon2_opt: Option<Ordinate>,
    lat2_opt: Option<Ordinate>,
) -> (r: Option<MatchingItems>)
    ensures
        r.deep_view() == collection_result(
            collection.deep_view(),
            query_box(lon1_opt, lat1_opt, lon2_opt, lat2_opt),
            fetched.deep_view(),
        ),
        *final(reporter) == reporter_after_collection(
            *old(reporter),
            collection.deep_view(),
            query_box(lon1_opt, lat1_opt, lon2_opt, lat2_opt),
            fetched.len(),
        ),
{
    match make_query_box(lon1_opt, lat1_opt, lon2_opt, lat2_opt) {
        Some(query) => {
            if any_bbox_overlaps(&collection.bbox, &query) {
                add_collection_with_spatial_filter(
                    collection,
                    reporter,
                    fetched,
                    query.xmin,
                    query.ymin,
                    query.xmax,
                    query.ymax,
                )
            } else {
                reporter.report_finished_collection();
                None
            }
        },
        None => add_collection_without_filters(collection, reporter, fetched),
    }
}

/// What a regular expression captures: the text of group number `group` in
/// the leftmost match of `pattern` in `text`. There is none when `pattern`
/// is no regular expression, when it matches nowhere in `text`, or when the
/// match does without that group.
pub uninterp spec fn regex_group(pattern: Seq<char>, text: Seq<char>, group: usize) -> Option<
    Seq<char>,
>;

/// Compiles `pattern` with `regex::Regex::new`, searches `text` with
/// `Regex::captures` and takes the group with `Captures::get`. The
/// contract claims only that the outcome is the one named `regex_group`:
/// the same pattern, text and group always give the same capture.
#[verifier::external_body]
fn capture_group(pattern: &str, text: &str, group: usize) -> (r: Option<String>)
    ensures
        r.deep_view() == regex_group(pattern@, text@, group),
{
    let re = regex::Regex::new(pattern).ok()?;
    let caps = re.captures(text)?;
    Some(caps.get(group)?.as_str().to_string())
}

/// The pattern of a resolution in a title: a decimal number directly before
/// an `m` that white space follows. Its first group is the number.
pub open spec fn resolution_pattern() -> Seq<char> {
    "(\\d+(\\.\\d+)?)m\\s+"@
}

/// The resolution hint of a title.
pub open spec fn title_hint(title: Seq<char>) -> HintView {
    hint_of_capture(regex_group(resolution_pattern(), title, 1))
}

/// The resolution that `text` names: the number that its first match of the
/// resolution pattern captures, or `Unknown`.
pub fn extract_value_before_m(text: &str) -> (r: ResolutionHint)
    ensures
        r.deep_view() == title_hint(text@),
{
    let capture = capture_group("(\\d+(\\.\\d+)?)m\\s+", text, 1);
    resolution_of_capture(&capture)
}

/// How many characters of a location stand before its last slash; none
/// where it has no slash.
pub open spec fn dir_len(location: Seq<char>) -> int
    decreases location.len(),
{
    if location.len() == 0 {
        0
    } else if location.last() == '/' {
        location.len() - 1
    } else {
        dir_len(location.drop_last())
    }
}

/// The directory of a location: what stands before its last slash.
pub open spec fn dirname(location: Seq<char>) -> Seq<char> {
    location.subrange(0, dir_len(location))
}

/// A reference is relative when it begins with `./`.
pub open spec fn is_relative(reference: Seq<char>) -> bool {
    has_prefix(reference, seq!['.', '/'])
}

/// The location that an asset reference of an item stands for. A relative
/// reference is joined onto the directory of the item's own location (the
/// empty directory where the item has no location); any other reference is
/// the location itself.
pub open spec fn resolved_reference(reference: Seq<char>, location: Option<Seq<char>>) -> Seq<
    char,
> {
    if is_relative(reference) {
        dirname(text_or_empty(location)) + seq!['/'] + reference.subrange(
            2,
            reference.len() as int,
        )
    } else {
        reference
    }
}

proof fn lemma_dir_len(location: Seq<char>, e: int)
    requires
        0 <= e <= location.len(),
        forall|j: int| e <= j < location.len() ==> location[j] != '/',
        e == 0 || location[e - 1] == '/',
    ensures
        dir_len(location) == (if e == 0 {
            0
        } else {
            e - 1
        }),
    decreases location.len() - e,
{
    if e < location.len() {
        lemma_dir_len(location.drop_last(), e);
    }
}

/// Joining a file name without a slash onto a directory and taking the
/// directory again gives the directory back, so a relative reference
/// `./name` of an item at `dir/item` resolves to `dir/name`.
pub proof fn lemma_resolve_relative(dir: Seq<char>, item_file: Seq<char>, name: Seq<char>)
    requires
        forall|j: int| 0 <= j < item_file.len() ==> item_file[j] != '/',
    ensures
        dirname(dir + seq!['/'] + item_file) == dir,
        resolved_reference(seq!['.', '/'] + name, Some(dir + seq!['/'] + item_file)) == dir + seq![
            '/',
        ] + name,
{
    let location = dir + seq!['/'] + item_file;
    lemma_dir_len(location, (dir.len() + 1) as int);
    assert(location.subrange(0, dir.len() as int) =~= dir);
    let reference = seq!['.', '/'] + name;
    assert(reference.subrange(0, 2) =~= seq!['.', '/']);
    assert(reference.subrange(2, reference.len() as int) =~= name);
}

/// A reference that does not begin with `./` is returned unchanged.
pub proof fn lemma_resolve_absolute(reference: Seq<char>, location: Option<Seq<char>>)
    requires
        !is_relative(reference),
    ensures
        resolved_reference(reference, location) == reference,
{
}

/// The location that an asset reference of an item stands for.
pub fn resolve_asset_reference(reference: &str, location: &Option<String>) -> (r: String)
    ensures
        r@ == resolved_reference(reference@, location.deep_view()),
{
    proof {
        reveal_strlit("./");
        reveal_strlit("/");
        reveal_strlit("");
        assert("./"@ =~= seq!['.', '/']);
        assert("/"@ =~= seq!['/']);
        assert(""@ =~= Seq::<char>::empty());
    }
    if starts_with(reference, "./") {
        let own: &str = match location {
            Some(l) => l.as_str(),
            None => "",
        };
        let v = chars_of(own);
        let mut e: usize = v.len();
        while e > 0 && v[e - 1] != '/'
            invariant
                e <= v.len(),
                forall|j: int| e <= j < v.len() ==> v@[j] != '/',
            decreases e,
        {
            e -= 1;
        }
        proof {
            lemma_dir_len(v@, e as int);
        }
        let cut: usize = if e == 0 {
            0
        } else {
            e - 1
        };
        let n: usize = reference.unicode_len();
        let mut out = own.substring_char(0, cut).to_owned();
        out.append("/");
        out.append(reference.substring_char(2, n));
        out
    } else {
        reference.to_owned()
    }
}

/// The locations of the assets of one item, in the order of its assets.
pub open spec fn item_hrefs(item: ItemView) -> Seq<Seq<char>> {
    Seq::new(item.assets.len(), |i: int| resolved_reference(item.assets[i].href, item.self_href))
}

/// The locations of the assets of some items: item after item, and within
/// an item asset after asset.
pub open spec fn group_hrefs(items: Seq<ItemView>) -> Seq<Seq<char>>
    decreases items.len(),
{
    if items.len() == 0 {
        Seq::empty()
    } else {
        group_hrefs(items.drop_last()) + item_hrefs(items.last())
    }
}

/// The group of asset locations that one match stands for, with its title.
pub open spec fn tile_group(m: MatchingItemsView) -> (Seq<Seq<char>>, Seq<char>) {
    (group_hrefs(m.items), m.title)
}

/// The groups of some matches, in the order of the matches.
pub open spec fn assembled(matches: Seq<MatchingItemsView>) -> Seq<(Seq<Seq<char>>, Seq<char>)> {
    Seq::new(matches.len(), |i: int| tile_group(matches[i]))
}

/// The order in which titles are ranked: by their resolution hint, the
/// finest first, and titles with the same hint as in the dictionary.
pub open spec fn rank_lt(a: Seq<char>, b: Seq<char>) -> bool {
    hint_lt(title_hint(a), title_hint(b)) || (title_hint(a) == title_hint(b) && lex_lt(a, b))
}

/// The place of two groups in a ranking: by the rank of their titles, and
/// groups with one title in the order in which they were given.
pub open spec fn placed_before(groups: Seq<(Seq<Seq<char>>, Seq<char>)>, i: int, j: int) -> bool {
    rank_lt(groups[i].1, groups[j].1) || (groups[i].1 == groups[j].1 && i < j)
}

/// `ranked` holds the groups of `groups` in ranked order, `order[k]` being
/// the position in `groups` of the group that stands at `ranked[k]`. Each
/// group stands in it once, as every position comes strictly before the
/// next.
pub open spec fn is_ranking(
    groups: Seq<(Seq<Seq<char>>, Seq<char>)>,
    order: Seq<int>,
    ranked: Seq<(Seq<Seq<char>>, Seq<char>)>,
) -> bool {
    &&& order.len() == groups.len()
    &&& ranked.len() == groups.len()
    &&& forall|k: int|
        0 <= k < order.len() ==> 0 <= #[trigger] order[k] < groups.len() && ranked[k]
            == groups[order[k]]
    &&& forall|i: int, j: int|
        0 <= i < j < order.len() ==> placed_before(groups, #[trigger] order[i], #[trigger] order[j])
}

/// The rank of titles is a strict total order.
pub proof fn lemma_rank_total(a: Seq<char>, b: Seq<char>)
    ensures
        rank_lt(a, b) || rank_lt(b, a) || a == b,
        !(rank_lt(a, b) && rank_lt(b, a)),
{
    lemma_hint_total(title_hint(a), title_hint(b));
    lemma_lex_total(a, b);
}

/// The rank of titles is transitive.
pub proof fn lemma_rank_transitive(a: Seq<char>, b: Seq<char>, c: Seq<char>)
    requires
        rank_lt(a, b),
        rank_lt(b, c),
    ensures
        rank_lt(a, c),
{
    let (ha, hb, hc) = (title_hint(a), title_hint(b), title_hint(c));
    lemma_hint_total(ha, hb);
    lemma_hint_total(hb, hc);
    if hint_lt(ha, hb) && hint_lt(hb, hc) {
        lemma_hint_transitive(ha, hb, hc);
    }
    if ha == hb && hb == hc {
        lemma_lex_transitive(a, b, c);
    }
}

/// In a ranking no group stands after a group of a coarser rank: the titles
/// never go down, so the hint of the first is the finest of all.
pub proof fn lemma_ranking_is_sorted(
    groups: Seq<(Seq<Seq<char>>, Seq<char>)>,
    order: Seq<int>,
    ranked: Seq<(Seq<Seq<char>>, Seq<char>)>,
    i: int,
    j: int,
)
    requires
        is_ranking(groups, order, ranked),
        0 <= i < j < ranked.len(),
    ensures
        !rank_lt(ranked[j].1, ranked[i].1),
        !hint_lt(title_hint(ranked[j].1), title_hint(ranked[i].1)),
{
    assert(placed_before(groups, order[i], order[j]));
    lemma_rank_total(ranked[i].1, ranked[j].1);
    lemma_hint_total(title_hint(ranked[i].1), title_hint(ranked[j].1));
}

/// Every group of a ranking of some matches is the group of one of the
/// matches, and has its title; there are as many groups as matches.
pub proof fn lemma_ranked_group_is_a_match(
    matches: Seq<MatchingItemsView>,
    order: Seq<int>,
    ranked: Seq<(Seq<Seq<char>>, Seq<char>)>,
    k: int,
)
    requires
        is_ranking(assembled(matches), order, ranked),
        0 <= k < ranked.len(),
    ensures
        ranked.len() == matches.len(),
        0 <= order[k] < matches.len(),
        ranked[k] == tile_group(matches[order[k]]),
        ranked[k].1 == matches[order[k]].title,
{
    assert(ranked[k] == assembled(matches)[order[k]]);
}

/// In a ranking every group stands once: the positions of an order are
/// all different, and every position of a group is among them.
pub proof fn lemma_ranking_is_permutation(
    groups: Seq<(Seq<Seq<char>>, Seq<char>)>,
    order: Seq<int>,
    ranked: Seq<(Seq<Seq<char>>, Seq<char>)>,
)
    requires
        is_ranking(groups, order, ranked),
    ensures
        order.no_duplicates(),
        forall|g: int| 0 <= g < groups.len() ==> order.contains(g),
{
    assert forall|i: int, j: int| 0 <= i < order.len() && 0 <= j < order.len() && i != j implies order[i]
        != order[j] by {
        if i < j {
            assert(placed_before(groups, order[i], order[j]));
        } else {
            assert(placed_before(groups, order[j], order[i]));
        }
        lemma_rank_total(groups[order[i]].1, groups[order[j]].1);
    }
    let all = set_int_range(0, groups.len() as int);
    lemma_int_range(0, groups.len() as int);
    order.unique_seq_to_set();
    seq_to_set_is_finite(order);
    assert(order.to_set().subset_of(all)) by {
        assert forall|g: int| order.to_set().contains(g) implies all.contains(g) by {
            let k = choose|k: int| 0 <= k < order.len() && order[k] == g;
            assert(0 <= order[k] < groups.len());
        }
    }
    lemma_subset_equality(order.to_set(), all);
    assert forall|g: int| 0 <= g < groups.len() implies order.contains(g) by {
        assert(all.contains(g));
        assert(order.to_set().contains(g));
    }
}

/// The groups of a search have one ranking only: the order of the groups
/// is fixed by their titles and by the order in which they were given.
pub proof fn lemma_ranking_is_unique(
    groups: Seq<(Seq<Seq<char>>, Seq<char>)>,
    order1: Seq<int>,
    ranked1: Seq<(Seq<Seq<char>>, Seq<char>)>,
    order2: Seq<int>,
    ranked2: Seq<(Seq<Seq<char>>, Seq<char>)>,
)
    requires
        is_ranking(groups, order1, ranked1),
        is_ranking(groups, order2, ranked2),
    ensures
        order1 == order2,
        ranked1 == ranked2,
{
    lemma_ranking_is_permutation(groups, order1, ranked1);
    lemma_ranking_is_permutation(groups, order2, ranked2);
    assert forall|i: int| 0 <= i < order1.len() implies order1[i] == order2[i] by {
        lemma_same_place(groups, order1, ranked1, order2, ranked2, i);
    }
    assert(order1 =~= order2);
    assert forall|k: int| 0 <= k < ranked1.len() implies ranked1[k] == ranked2[k] by {
        assert(ranked1[k] == groups[order1[k]]);
        assert(ranked2[k] == groups[order2[k]]);
    }
    assert(ranked1 =~= ranked2);
}

/// Two rankings of the same groups agree up to and at every place.
proof fn lemma_same_place(
    groups: Seq<(Seq<Seq<char>>, Seq<char>)>,
    order1: Seq<int>,
    ranked1: Seq<(Seq<Seq<char>>, Seq<char>)>,
    order2: Seq<int>,
    ranked2: Seq<(Seq<Seq<char>>, Seq<char>)>,
    i: int,
)
    requires
        is_ranking(groups, order1, ranked1),
        is_ranking(groups, order2, ranked2),
        order1.no_duplicates(),
        order2.no_duplicates(),
        forall|g: int| 0 <= g < groups.len() ==> order1.contains(g),
        forall|g: int| 0 <= g < groups.len() ==> order2.contains(g),
        0 <= i < order1.len(),
    ensures
        order1[i] == order2[i],
    decreases i,
{
    assert forall|k: int| 0 <= k < i implies order1[k] == order2[k] by {
        lemma_same_place(groups, order1, ranked1, order2, ranked2, k);
    }
    let a = order1[i];
    let b = order2[i];
    assert(order2.contains(a));
    let p = choose|p: int| 0 <= p < order2.len() && order2[p] == a;
    assert(order1.contains(b));
    let q = choose|q: int| 0 <= q < order1.len() && order1[q] == b;
    if p < i {
        assert(order1[p] == order2[p]);
    }
    if q < i {
        assert(order2[q] == order1[q]);
    }
    if p > i {
        assert(placed_before(groups, order2[i], order2[p]));
        lemma_rank_total(groups[a].1, groups[b].1);
        if q > i {
            assert(placed_before(groups, order1[i], order1[q]));
        }
    }
}

/// What a title is ranked by.
struct RankKey {
    hint: ResolutionHint,
    title: Vec<char>,
}

impl RankKey {
    spec fn fits(&self, title: Seq<char>) -> bool {
        self.hint.deep_view() == title_hint(title) && self.title@ == title
    }

    fn of(title: &str) -> (r: RankKey)
        ensures
            r.fits(title@),
    {
        RankKey { hint: extract_value_before_m(title), title: chars_of(title) }
    }

    fn is_before(&self, other: &RankKey, Ghost(a): Ghost<Seq<char>>, Ghost(b): Ghost<Seq<char>>) -> (r:
        bool)
        requires
            self.fits(a),
            other.fits(b),
        ensures
            r == rank_lt(a, b),
    {
        proof {
            lemma_hint_total(title_hint(a), title_hint(b));
            lemma_hint_total(title_hint(a), title_hint(a));
        }
        if self.hint.is_before(&other.hint) {
            true
        } else if other.hint.is_before(&self.hint) {
            false
        } else {
            chars_before(&self.title, &other.title)
        }
    }
}

/// Adds the locations of the assets of `item` to `hrefs`.
fn push_item_hrefs(item: &Item, hrefs: &mut Vec<String>)
    ensures
        final(hrefs).deep_view() == old(hrefs).deep_view() + item_hrefs(item.deep_view()),
{
    let ghost before = hrefs.deep_view();
    let ghost all = item_hrefs(item.deep_view());
    let mut i: usize = 0;
    assert(hrefs.deep_view() =~= before + all.subrange(0, 0));
    while i < item.assets.len()
        invariant
            i <= item.assets.len(),
            all == item_hrefs(item.deep_view()),
            all.len() == item.assets.len(),
            hrefs.deep_view() == before + all.subrange(0, i as int),
        decreases item.assets.len() - i,
    {
        let ghost sofar = hrefs.deep_view();
        let href = resolve_asset_reference(item.assets[i].href.as_str(), &item.self_href);
        assert(href@ == all[i as int]);
        hrefs.push(href);
        assert(hrefs.deep_view() =~= sofar.push(all[i as int]));
        assert(before + all.subrange(0, i + 1) =~= sofar.push(all[i as int]));
        i += 1;
    }
    assert(all.subrange(0, i as int) =~= all);
}

/// The locations of the assets of `items`.
fn hrefs_of_items(items: &Vec<Item>) -> (hrefs: Vec<String>)
    ensures
        hrefs.deep_view() == group_hrefs(items.deep_view()),
{
    let ghost all = items.deep_view();
    let mut hrefs: Vec<String> = Vec::new();
    let mut i: usize = 0;
    assert(hrefs.deep_view() =~= group_hrefs(all.subrange(0, 0)));
    while i < items.len()
        invariant
            i <= items.len(),
            all == items.deep_view(),
            hrefs.deep_view() == group_hrefs(all.subrange(0, i as int)),
        decreases items.len() - i,
    {
        proof {
            let upto = all.subrange(0, i + 1);
            assert(upto.drop_last() =~= all.subrange(0, i as int));
            assert(upto.last() == all[i as int]);
        }
        push_item_hrefs(&items[i], &mut hrefs);
        i += 1;
    }
    assert(all.subrange(0, i as int) =~= all);
    hrefs
}

/// A ranking stays one when the next group is put after every group that
/// does not rank after it.
proof fn lemma_insert_keeps_ranking(
    groups: Seq<(Seq<Seq<char>>, Seq<char>)>,
    order: Seq<int>,
    pos: int,
    k: int,
)
    requires
        0 <= k < groups.len(),
        0 <= pos <= order.len(),
        forall|p: int| 0 <= p < order.len() ==> 0 <= #[trigger] order[p] < k,
        forall|i: int, j: int|
            0 <= i < j < order.len() ==> placed_before(
                groups,
                #[trigger] order[i],
                #[trigger] order[j],
            ),
        forall|p: int| 0 <= p < pos ==> !rank_lt(groups[k].1, groups[#[trigger] order[p]].1),
        pos == order.len() || rank_lt(groups[k].1, groups[order[pos]].1),
    ensures
        forall|p: int|
            0 <= p < order.insert(pos, k).len() ==> 0 <= #[trigger] order.insert(pos, k)[p] < k + 1,
        forall|i: int, j: int|
            0 <= i < j < order.insert(pos, k).len() ==> placed_before(
                groups,
                #[trigger] order.insert(pos, k)[i],
                #[trigger] order.insert(pos, k)[j],
            ),
{
    let next = order.insert(pos, k);
    assert forall|i: int, j: int| 0 <= i < j < next.len() implies placed_before(
        groups,
        #[trigger] next[i],
        #[trigger] next[j],
    ) by {
        if j == pos {
            assert(next[i] == order[i]);
            lemma_rank_total(groups[k].1, groups[order[i]].1);
        } else if i == pos {
            assert(next[j] == order[j - 1]);
            if j - 1 > pos {
                assert(placed_before(groups, order[pos], order[j - 1]));
                if rank_lt(groups[order[pos]].1, groups[order[j - 1]].1) {
                    lemma_rank_transitive(
                        groups[k].1,
                        groups[order[pos]].1,
                        groups[order[j - 1]].1,
                    );
                }
            }
        } else {
            let oi = if i < pos {
                i
            } else {
                i - 1
            };
            let oj = if j < pos {
                j
            } else {
                j - 1
            };
            assert(next[i] == order[oi]);
            assert(next[j] == order[oj]);
            assert(placed_before(groups, order[oi], order[oj]));
        }
    }
}

/// The groups of asset locations of a search, ranked. Each match gives one
/// group: the locations of the assets of its items, relative references
/// resolved, with the title of the match. The groups are ordered by the
/// resolution hint of their titles, the finest first; groups with one hint
/// as their titles stand in the dictionary; groups with one title as they
/// were given.
pub fn get_hrefs(results: Vec<MatchingItems>) -> (hrefs: Vec<(Vec<String>, String)>)
    ensures
        hrefs.len() == results.len(),
        exists|order: Seq<int>|
            is_ranking(assembled(results.deep_view()), order, hrefs.deep_view()),
        forall|i: int, j: int|
            0 <= i < j < hrefs.len() ==> !rank_lt(
                #[trigger] hrefs.deep_view()[j].1,
                #[trigger] hrefs.deep_view()[i].1,
            ),
{
    let ghost groups = assembled(results.deep_view());
    let ghost mut order: Seq<int> = Seq::empty();
    let mut hrefs: Vec<(Vec<String>, String)> = Vec::new();
    let mut keys: Vec<RankKey> = Vec::new();
    let mut k: usize = 0;
    while k < results.len()
        invariant
            k <= results.len(),
            groups == assembled(results.deep_view()),
            groups.len() == results.len(),
            order.len() == k,
            hrefs.len() == k,
            keys.len() == k,
            forall|p: int| 0 <= p < k ==> 0 <= #[trigger] order[p] < k,
            forall|p: int| 0 <= p < k ==> #[trigger] hrefs.deep_view()[p] == groups[order[p]],
            forall|p: int| 0 <= p < k ==> (#[trigger] keys[p]).fits(groups[order[p]].1),
            forall|i: int, j: int|
                0 <= i < j < k ==> placed_before(groups, #[trigger] order[i], #[trigger] order[j]),
        decreases results.len() - k,
    {
        let found = &results[k];
        let locations = hrefs_of_items(&found.items);
        let title = found.title.clone();
        let key = RankKey::of(title.as_str());
        assert((locations, title).deep_view() == groups[k as int]);
        let mut pos: usize = 0;
        while pos < keys.len() && !key.is_before(
            &keys[pos],
            Ghost(groups[k as int].1),
            Ghost(groups[order[pos as int]].1),
        )
            invariant
                pos <= keys.len(),
                keys.len() == k,
                order.len() == k,
                k < groups.len(),
                key.fits(groups[k as int].1),
                forall|p: int| 0 <= p < k ==> 0 <= #[trigger] order[p] < k,
                forall|p: int| 0 <= p < k ==> (#[trigger] keys[p]).fits(groups[order[p]].1),
                forall|p: int|
                    0 <= p < pos ==> !rank_lt(groups[k as int].1, groups[#[trigger] order[p]].1),
            decreases keys.len() - pos,
        {
            pos += 1;
        }
        proof {
            lemma_insert_keeps_ranking(groups, order, pos as int, k as int);
        }
        let ghost views = hrefs.deep_view();
        let ghost old_keys = keys@;
        let ghost old_order = order;
        hrefs.insert(pos, (locations, title));
        keys.insert(pos, key);
        proof {
            order = order.insert(pos as int, k as int);
            assert(hrefs.deep_view() =~= views.insert(pos as int, groups[k as int]));
            assert forall|p: int| 0 <= p < k + 1 implies #[trigger] hrefs.deep_view()[p]
                == groups[order[p]] by {
                if p < pos {
                    assert(views[p] == groups[old_order[p]]);
                } else if p > pos {
                    assert(views[p - 1] == groups[old_order[p - 1]]);
                }
            }
            assert forall|p: int| 0 <= p < k + 1 implies (#[trigger] keys[p]).fits(
                groups[order[p]].1,
            ) by {
                if p < pos {
                    assert(old_keys[p].fits(groups[old_order[p]].1));
                } else if p > pos {
                    assert(old_keys[p - 1].fits(groups[old_order[p - 1]].1));
                }
            }
        }
        k += 1;
    }
    proof {
        assert(is_ranking(groups, order, hrefs.deep_view()));
        assert forall|i: int, j: int| 0 <= i < j < hrefs.len() implies !rank_lt(
            #[trigger] hrefs.deep_view()[j].1,
            #[trigger] hrefs.deep_view()[i].1,
        ) by {
            lemma_ranking_is_sorted(groups, order, hrefs.deep_view(), i, j);
        }
    }
    hrefs
}

} // verus!
