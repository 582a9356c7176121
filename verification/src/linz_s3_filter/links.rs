//! Making the links of a document absolute: a relative link is taken from
//! the place where the document itself was read.

use vstd::prelude::*;
use crate::error::MyError;
use crate::linz_s3_filter::dataset::{
    Catalog,
    CatalogView,
    Collection,
    CollectionView,
    Link,
    LinkView,
};

verus! {

/// The error of the `stac` crate, carried as it is.
#[verifier::external_type_specification]
#[verifier::external_body]
pub struct ExStacError(stac::Error);

/// The absolute form of a location relative to a base, as
/// `stac::href::make_absolute` gives it; none where that function fails.
pub uninterp spec fn absolute_href(href: Seq<char>, base: Seq<char>) -> Option<Seq<char>>;

/// Calls `stac::href::make_absolute`. The contract claims only that the
/// outcome is the one named `absolute_href`: the same location and base
/// always give the same result, or always fail.
#[verifier::external_body]
fn make_absolute(href: &str, base: &str) -> (r: Result<String, stac::Error>)
    ensures
        match r {
            Ok(absolute) => absolute_href(href@, base@) == Some(absolute@),
            Err(_) => absolute_href(href@, base@) is None,
        },
{
    match stac::href::make_absolute(href, base) {
        Ok(absolute) => Ok(absolute.into_owned()),
        Err(e) => Err(e),
    }
}

/// Formats an error of the `stac` crate with its `Display`. Nothing is
/// claimed of the text.
#[verifier::external_body]
fn error_text(e: &stac::Error) -> (text: String) {
    format!("{}", e)
}

/// A link with its location made absolute; none where that cannot be done.
pub open spec fn absolute_link(link: LinkView, base: Seq<char>) -> Option<LinkView> {
    match absolute_href(link.href, base) {
        Some(href) => Some(LinkView { href, rel: link.rel }),
        None => None,
    }
}

/// The links with their locations made absolute, in the same order; none
/// where one of them cannot be made absolute.
pub open spec fn absolute_links(links: Seq<LinkView>, base: Seq<char>) -> Option<Seq<LinkView>> {
    if forall|i: int| 0 <= i < links.len() ==> absolute_link(#[trigger] links[i], base) is Some {
        Some(Seq::new(links.len(), |i: int| absolute_link(links[i], base)->0))
    } else {
        None
    }
}

/// The links of a document read from `self_href`, made absolute. A
/// document that was read from nowhere has no such links.
pub open spec fn links_from(links: Seq<LinkView>, self_href: Option<Seq<char>>) -> Option<
    Seq<LinkView>,
> {
    match self_href {
        Some(base) => absolute_links(links, base),
        None => None,
    }
}

/// A collection with its links made absolute.
pub open spec fn absolute_collection(c: CollectionView) -> Option<CollectionView> {
    match links_from(c.links, c.self_href) {
        Some(links) => Some(CollectionView { links, ..c }),
        None => None,
    }
}

/// A catalog with its links made absolute.
pub open spec fn absolute_catalog(c: CatalogView) -> Option<CatalogView> {
    match links_from(c.links, c.self_href) {
        Some(links) => Some(CatalogView { links, ..c }),
        None => None,
    }
}

/// The links of a document read from `self_href`, made absolute. The
/// result is an error where the document has no location of its own, and
/// where a link cannot be made absolute.
pub fn make_links_absolute(links: &Vec<Link>, self_href: &Option<String>) -> (r: Result<
    Vec<Link>,
    MyError,
>)
    ensures
        match r {
            Ok(made) => links_from(links.deep_view(), self_href.deep_view()) == Some(
                made.deep_view(),
            ),
            Err(e) => links_from(links.deep_view(), self_href.deep_view()) is None && e is StacError,
        },
        self_href is None ==> (r matches Err(MyError::StacError(text)) && text@ == "no href"@),
{
    let base: &str = match self_href {
        Some(href) => href.as_str(),
        None => {
            return Err(MyError::StacError("no href".to_owned()));
        },
    };
    let ghost all = links.deep_view();
    let mut made: Vec<Link> = Vec::new();
    let mut i: usize = 0;
    while i < links.len()
        invariant
            i <= links.len(),
            all == links.deep_view(),
            self_href.deep_view() == Some(base@),
            made.len() == i,
            forall|j: int| 0 <= j < i ==> absolute_link(#[trigger] all[j], base@) == Some(
                made.deep_view()[j],
            ),
        decreases links.len() - i,
    {
        let link = &links[i];
        let ghost before = made.deep_view();
        match make_absolute(link.href.as_str(), base) {
            Ok(href) => {
                made.push(Link { href, rel: link.rel.clone() });
                assert(made.deep_view() =~= before.push(absolute_link(all[i as int], base@)->0));
            },
            Err(e) => {
                assert(absolute_link(all[i as int], base@) is None);
                return Err(MyError::StacError(error_text(&e)));
            },
        }
        i += 1;
    }
    assert(made.deep_view() =~= Seq::new(all.len(), |i: int| absolute_link(all[i], base@)->0));
    Ok(made)
}

impl Catalog {
    /// Makes every link of the catalog absolute. On an error the catalog
    /// stays as it was.
    pub fn make_links_absolute(&mut self) -> (r: Result<(), MyError>)
        ensures
            match r {
                Ok(_) => absolute_catalog(old(self).deep_view()) == Some(final(self).deep_view()),
                Err(e) => absolute_catalog(old(self).deep_view()) is None && e is StacError
                    && *final(self) == *old(self),
            },
    {
        match make_links_absolute(&self.links, &self.self_href) {
            Ok(made) => {
                self.links = made;
                Ok(())
            },
            Err(e) => Err(e),
        }
    }
}

impl Collection {
    /// Makes every link of the collection absolute. On an error the
    /// collection stays as it was.
    pub fn make_links_absolute(&mut self) -> (r: Result<(), MyError>)
        ensures
            match r {
                Ok(_) => absolute_collection(old(self).deep_view()) == Some(
                    final(self).deep_view(),
                ),
                Err(e) => absolute_collection(old(self).deep_view()) is None && e is StacError
                    && *final(self) == *old(self),
            },
    {
        match make_links_absolute(&self.links, &self.self_href) {
            Ok(made) => {
                self.links = made;
                Ok(())
            },
            Err(e) => Err(e),
        }
    }
}

} // verus!
