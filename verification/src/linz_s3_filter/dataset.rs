//! The catalog documents as the crawler reads them: what a collection and an
//! item hold, and the mathematical value each stands for.

use vstd::prelude::*;
use crate::linz_s3_filter::extent::Bbox;

verus! {

/// The buckets that can be searched.
#[derive(Copy, Clone, Debug, PartialEq, Eq, PartialOrd, Ord, Structural)]
pub enum BucketName {
    Elevation,
    Imagery,
}

/// The long name of [`BucketName`].
pub type LinzBucketName = BucketName;

/// The base location of each bucket.
pub open spec fn bucket_base(bucket: BucketName) -> Seq<char> {
    match bucket {
        BucketName::Elevation => "https://nz-elevation.s3.ap-southeast-2.amazonaws.com"@,
        BucketName::Imagery => "https://nz-imagery.s3.ap-southeast-2.amazonaws.com"@,
    }
}

impl LinzBucketName {
    /// The base location of the bucket, without a trailing slash.
    pub fn as_str(&self) -> (r: &'static str)
        ensures
            r@ == bucket_base(*self),
    {
        match self {
            BucketName::Elevation => "https://nz-elevation.s3.ap-southeast-2.amazonaws.com",
            BucketName::Imagery => "https://nz-imagery.s3.ap-southeast-2.amazonaws.com",
        }
    }
}

/// A link of a catalog or collection document.
#[derive(Debug, PartialEq, Eq)]
pub struct Link {
    pub href: String,
    pub rel: String,
}

/// What a `Link` stands for.
pub ghost struct LinkView {
    pub href: Seq<char>,
    pub rel: Seq<char>,
}

impl DeepView for Link {
    type V = LinkView;

    open spec fn deep_view(&self) -> LinkView {
        LinkView { href: self.href@, rel: self.rel@ }
    }
}

impl Clone for Link {
    fn clone(&self) -> (r: Self)
        ensures
            r == *self,
    {
        Link { href: self.href.clone(), rel: self.rel.clone() }
    }
}

/// A named file of an item: `href` is absolute, or relative to the item's
/// own location.
#[derive(Debug, PartialEq, Eq)]
pub struct Asset {
    pub key: String,
    pub href: String,
}

/// What an `Asset` stands for.
pub ghost struct AssetView {
    pub key: Seq<char>,
    pub href: Seq<char>,
}

impl DeepView for Asset {
    type V = AssetView;

    open spec fn deep_view(&self) -> AssetView {
        AssetView { key: self.key@, href: self.href@ }
    }
}

impl Clone for Asset {
    fn clone(&self) -> (r: Self)
        ensures
            r == *self,
    {
        Asset { key: self.key.clone(), href: self.href.clone() }
    }
}

/// The root document of a bucket: its links lead to the collections.
#[derive(Debug, PartialEq, Eq)]
pub struct Catalog {
    pub id: String,
    pub title: Option<String>,
    pub description: String,
    pub links: Vec<Link>,
    /// Where the catalog itself was read from.
    pub self_href: Option<String>,
}

/// What a `Catalog` stands for.
pub ghost struct CatalogView {
    pub id: Seq<char>,
    pub title: Option<Seq<char>>,
    pub description: Seq<char>,
    pub links: Seq<LinkView>,
    pub self_href: Option<Seq<char>>,
}

impl DeepView for Catalog {
    type V = CatalogView;

    open spec fn deep_view(&self) -> CatalogView {
        CatalogView {
            id: self.id@,
            title: self.title.deep_view(),
            description: self.description@,
            links: self.links.deep_view(),
            self_href: self.self_href.deep_view(),
        }
    }
}

/// A named group of items that share a spatial extent.
#[derive(Debug, PartialEq, Eq)]
pub struct Collection {
    pub id: String,
    pub title: Option<String>,
    /// The boxes of the spatial extent.
    pub bbox: Vec<Bbox>,
    pub links: Vec<Link>,
    /// Where the collection itself was read from.
    pub self_href: Option<String>,
}

/// What a `Collection` stands for.
pub ghost struct CollectionView {
    pub id: Seq<char>,
    pub title: Option<Seq<char>>,
    pub bbox: Seq<Bbox>,
    pub links: Seq<LinkView>,
    pub self_href: Option<Seq<char>>,
}

impl DeepView for Collection {
    type V = CollectionView;

    open spec fn deep_view(&self) -> CollectionView {
        CollectionView {
            id: self.id@,
            title: self.title.deep_view(),
            bbox: self.bbox@,
            links: self.links.deep_view(),
            self_href: self.self_href.deep_view(),
        }
    }
}

/// A copy of an optional text.
pub fn clone_opt_string(s: &Option<String>) -> (r: Option<String>)
    ensures
        r == *s,
{
    match s {
        Some(t) => Some(t.clone()),
        None => None,
    }
}

impl Clone for Collection {
    fn clone(&self) -> (r: Self)
        ensures
            r.deep_view() == self.deep_view(),
            r.id == self.id,
            r.title == self.title,
            r.bbox@ == self.bbox@,
            r.links@ == self.links@,
            r.self_href == self.self_href,
    {
        let bbox = self.bbox.clone();
        let links = self.links.clone();
        assert(bbox@ =~= self.bbox@);
        assert(links@ =~= self.links@);
        let r = Collection {
            id: self.id.clone(),
            title: clone_opt_string(&self.title),
            bbox,
            links,
            self_href: clone_opt_string(&self.self_href),
        };
        assert(r.links.deep_view() =~= self.links.deep_view());
        r
    }
}

/// A leaf entry of the catalog.
#[derive(Debug, PartialEq, Eq)]
pub struct Item {
    pub id: String,
    pub bbox: Option<Bbox>,
    /// The assets in the order of the document.
    pub assets: Vec<Asset>,
    /// Where the item itself was read from.
    pub self_href: Option<String>,
}

/// What an `Item` stands for.
pub ghost struct ItemView {
    pub id: Seq<char>,
    pub bbox: Option<Bbox>,
    pub assets: Seq<AssetView>,
    pub self_href: Option<Seq<char>>,
}

impl DeepView for Item {
    type V = ItemView;

    open spec fn deep_view(&self) -> ItemView {
        ItemView {
            id: self.id@,
            bbox: self.bbox,
            assets: self.assets.deep_view(),
            self_href: self.self_href.deep_view(),
        }
    }
}

impl Clone for Item {
    fn clone(&self) -> (r: Self)
        ensures
            r.deep_view() == self.deep_view(),
    {
        let assets = self.assets.clone();
        assert(assets@ =~= self.assets@);
        let r = Item {
            id: self.id.clone(),
            bbox: self.bbox,
            assets,
            self_href: clone_opt_string(&self.self_href),
        };
        assert(r.assets.deep_view() =~= self.assets.deep_view());
        r
    }
}

impl Item {
    /// An item with the given identifier and nothing else: no box, no asset,
    /// no location.
    pub fn new(id: &str) -> (r: Item)
        ensures
            r.deep_view() == (ItemView {
                id: id@,
                bbox: None,
                assets: Seq::empty(),
                self_href: None,
            }),
    {
        let r = Item { id: id.to_owned(), bbox: None, assets: Vec::new(), self_href: None };
        assert(r.assets.deep_view() =~= Seq::<AssetView>::empty());
        r
    }
}

/// What the search of one collection gave: its title and the items that
/// passed the spatial filter.
#[derive(Debug, PartialEq, Eq)]
pub struct MatchingItems {
    pub title: String,
    pub items: Vec<Item>,
}

/// What a `MatchingItems` stands for.
pub ghost struct MatchingItemsView {
    pub title: Seq<char>,
    pub items: Seq<ItemView>,
}

impl DeepView for MatchingItems {
    type V = MatchingItemsView;

    open spec fn deep_view(&self) -> MatchingItemsView {
        MatchingItemsView { title: self.title@, items: self.items.deep_view() }
    }
}

} // verus!
