//! Reading a title page and a chapter page: what the markup yields, in the
//! order and shape in which the catalogue stores it.

use crate::storage::{image_file_name, image_path};
use crate::text::{href_head, href_prefix, href_suffix, href_tail, lemma_href_parts, split_href};
use crate::timestamp::{get_nelo_time, nelo_date};
use crate::user::{chapters_view, Chapter, ChapterView, Title};
use vstd::prelude::*;
use vstd::string::*;

verus! {

/// One element that a selector matched: its text, and the value of the
/// attribute that was asked for, where the element has it.
pub struct Element {
    pub text: String,
    pub attr: Option<String>,
}

impl View for Element {
    type V = (Seq<char>, Option<Seq<char>>);

    open spec fn view(&self) -> Self::V {
        (
            self.text@,
            match self.attr {
                Some(value) => Some(value@),
                None => None,
            },
        )
    }
}

/// The matched elements as plain values, in the order in which they were
/// matched.
pub open spec fn elements_view(found: Seq<Element>) -> Seq<(Seq<char>, Option<Seq<char>>)> {
    found.map_values(|e: Element| e@)
}

/// What selecting `selector` in the document `body` yields: for each matched
/// element, in the order in which the selection yields them, its text and
/// its attribute `attr`. `None` when `selector` is no valid selector.
pub uninterp spec fn selected(body: Seq<char>, selector: Seq<char>, attr: Seq<char>) -> Option<
    Seq<(Seq<char>, Option<Seq<char>>)>,
>;

/// Selects elements of an HTML document.
///
/// Parses the selector with `scraper::Selector::parse` and the document with
/// `scraper::Html::parse_document`, walks `scraper::Html::select`, and takes
/// of each element the text (`ElementRef::text`) and one attribute
/// (`Element::attr`). The contract only gives that result its name,
/// [`selected`]: it depends on the three texts alone.
#[verifier::external_body]
fn select_elements(body: &str, selector: &str, attr: &str) -> (r: Option<Vec<Element>>)
    ensures
        r matches Some(found) ==> selected(body@, selector@, attr@) == Some(
            elements_view(found@),
        ),
        r is None ==> selected(body@, selector@, attr@) is None,
{
    let parsed = match scraper::Selector::parse(selector) {
        Ok(parsed) => parsed,
        Err(_) => return None,
    };
    let document = scraper::Html::parse_document(body);
    let mut found = Vec::new();
    for e in document.select(&parsed) {
        let value = e.value().attr(attr).map(|value| value.to_string());
        found.push(Element { text: e.text().collect::<String>(), attr: value });
    }
    Some(found)
}

/// Where on a page each field is found. The strings are CSS selectors; they
/// belong to the source site, not to this library.
pub struct Selectors {
    pub title: String,
    pub cover: String,
    pub links: String,
    pub dates: String,
    pub images: String,
}

/// Why a page could not be read.
#[derive(Clone, Copy, Debug, PartialEq, Eq, Structural)]
pub enum ParseError {
    /// A configured selector is not valid CSS.
    Selector,
    /// No element holds the title.
    Title,
    /// No cover element, or it has no `src`.
    Cover,
    /// Fewer than two dated entries, or the second is no date.
    Date,
    /// The chapter listing is empty.
    Chapters,
    /// A chapter entry has no `href`, or its `href` holds no `/`.
    Href,
    /// An image element has no `src`.
    Image,
}

/// A chapter as the page lists it.
pub struct Link {
    pub desc: String,
    pub href: String,
}

/// A link as plain text.
pub struct LinkView {
    pub desc: Seq<char>,
    pub href: Seq<char>,
}

impl View for Link {
    type V = LinkView;

    open spec fn view(&self) -> LinkView {
        LinkView { desc: self.desc@, href: self.href@ }
    }
}

/// The links as plain text, in order.
pub open spec fn links_view(links: Seq<Link>) -> Seq<LinkView> {
    links.map_values(|l: Link| l@)
}

/// What a title page yields.
pub struct Page {
    pub title: String,
    pub cover_url: String,
    pub last_updated: String,
    pub chap_prefix: String,
    /// Oldest chapter first.
    pub links: Vec<Link>,
}

/// A page as plain text.
pub struct PageView {
    pub title: Seq<char>,
    pub cover_url: Seq<char>,
    pub last_updated: Seq<char>,
    pub chap_prefix: Seq<char>,
    pub links: Seq<LinkView>,
}

impl View for Page {
    type V = PageView;

    open spec fn view(&self) -> PageView {
        PageView {
            title: self.title@,
            cover_url: self.cover_url@,
            last_updated: self.last_updated@,
            chap_prefix: self.chap_prefix@,
            links: links_view(self.links@),
        }
    }
}

/// Whether the matched entry `e` carries an href that can be split.
pub open spec fn is_link(e: (Seq<char>, Option<Seq<char>>)) -> bool {
    e.1 is Some && e.1->0.contains('/')
}

/// Whether every entry of the listing is a usable link.
pub open spec fn all_links(found: Seq<(Seq<char>, Option<Seq<char>>)>) -> bool {
    forall|i: int| 0 <= i < found.len() ==> is_link(#[trigger] found[i])
}

/// The listing turned round: the page lists the newest chapter first, the
/// catalogue keeps the oldest first.
pub open spec fn oldest_first(found: Seq<(Seq<char>, Option<Seq<char>>)>) -> Seq<LinkView> {
    Seq::new(
        found.len(),
        |i: int| LinkView { desc: found[found.len() - 1 - i].0, href: found[found.len() - 1 - i].1->0 },
    )
}

/// The text of the second dated entry: by the site's convention the first
/// may repeat a banner, the second belongs to the newest chapter.
pub open spec fn release_text(dates: Seq<(Seq<char>, Option<Seq<char>>)>) -> Option<Seq<char>> {
    if dates.len() >= 2 {
        Some(dates[1].0)
    } else {
        None
    }
}

/// The page that the four selections and the normalised date make up, or
/// the first thing that is missing.
pub open spec fn page_of(
    titles: Seq<(Seq<char>, Option<Seq<char>>)>,
    covers: Seq<(Seq<char>, Option<Seq<char>>)>,
    date: Option<Seq<char>>,
    links: Seq<(Seq<char>, Option<Seq<char>>)>,
) -> Result<PageView, ParseError> {
    if titles.len() == 0 {
        Err(ParseError::Title)
    } else if covers.len() == 0 || covers[0].1 is None {
        Err(ParseError::Cover)
    } else if date is None {
        Err(ParseError::Date)
    } else if links.len() == 0 {
        Err(ParseError::Chapters)
    } else if !all_links(links) {
        Err(ParseError::Href)
    } else {
        Ok(
            PageView {
                title: titles[0].0,
                cover_url: covers[0].1->0,
                last_updated: date->0,
                chap_prefix: href_prefix(links.last().1->0),
                links: oldest_first(links),
            },
        )
    }
}

/// The view of an extraction result.
pub open spec fn page_result_view(r: Result<Page, ParseError>) -> Result<PageView, ParseError> {
    match r {
        Ok(page) => Ok(page@),
        Err(e) => Err(e),
    }
}

/// The chapter listing, oldest first; `None` when an entry is no usable link.
pub fn ordered_links(found: &Vec<Element>) -> (r: Option<Vec<Link>>)
    ensures
        r is Some <==> all_links(elements_view(found@)),
        r matches Some(links) ==> links_view(links@) == oldest_first(elements_view(found@)),
{
    let ghost listing = elements_view(found@);
    let n: usize = found.len();
    let mut links: Vec<Link> = Vec::new();
    let mut i: usize = n;
    while i > 0
        invariant
            i <= n,
            n == found.len(),
            listing == elements_view(found@),
            links.len() == n - i,
            forall|j: int| i <= j < n ==> is_link(#[trigger] listing[j]),
            forall|k: int|
                0 <= k < links.len() ==> (#[trigger] links[k])@ == oldest_first(listing)[k],
        decreases i,
    {
        i = i - 1;
        let entry = &found[i];
        assert(listing[i as int] == entry@);
        match &entry.attr {
            Some(href) => {
                if split_href(href.as_str()).is_none() {
                    assert(!is_link(listing[i as int]));
                    return None;
                }
                links.push(Link { desc: entry.text.clone(), href: href.clone() });
            },
            None => {
                assert(!is_link(listing[i as int]));
                return None;
            },
        }
    }
    assert(links_view(links@) =~= oldest_first(listing));
    Some(links)
}

/// Puts a page together from what the selectors matched and from the
/// normalised release date.
pub fn build_page(
    titles: &Vec<Element>,
    covers: &Vec<Element>,
    date: Option<String>,
    links: &Vec<Element>,
) -> (r: Result<Page, ParseError>)
    ensures
        page_result_view(r) == page_of(
            elements_view(titles@),
            elements_view(covers@),
            match date {
                Some(day) => Some(day@),
                None => None,
            },
            elements_view(links@),
        ),
{
    if titles.len() == 0 {
        return Err(ParseError::Title);
    }
    let title = titles[0].text.clone();
    assert(elements_view(titles@)[0] == titles@[0]@);
    if covers.len() == 0 {
        return Err(ParseError::Cover);
    }
    assert(elements_view(covers@)[0] == covers@[0]@);
    let cover_url = match &covers[0].attr {
        Some(src) => src.clone(),
        None => {
            return Err(ParseError::Cover);
        },
    };
    let last_updated = match date {
        Some(day) => day,
        None => {
            return Err(ParseError::Date);
        },
    };
    if links.len() == 0 {
        return Err(ParseError::Chapters);
    }
    let ordered = match ordered_links(links) {
        Some(ordered) => ordered,
        None => {
            return Err(ParseError::Href);
        },
    };
    let ghost listing = elements_view(links@);
    assert(listing.len() == links.len());
    assert(links_view(ordered@).len() == ordered.len());
    assert(oldest_first(listing).len() == listing.len());
    assert(links_view(ordered@)[0] == ordered@[0]@);
    let chap_prefix = href_head(ordered[0].href.as_str());
    Ok(Page { title, cover_url, last_updated, chap_prefix, links: ordered })
}

/// The normalised release date that a selection of dated entries yields.
pub open spec fn release_date(dates: Seq<(Seq<char>, Option<Seq<char>>)>) -> Option<Seq<char>> {
    match release_text(dates) {
        Some(text) => nelo_date(text),
        None => None,
    }
}

/// What reading the title page `body` with `sel` yields.
pub open spec fn extracted(body: Seq<char>, sel: Selectors) -> Result<PageView, ParseError> {
    match (
        selected(body, sel.title@, ""@),
        selected(body, sel.cover@, "src"@),
        selected(body, sel.dates@, ""@),
        selected(body, sel.links@, "href"@),
    ) {
        (Some(titles), Some(covers), Some(dates), Some(links)) => page_of(
            titles,
            covers,
            release_date(dates),
            links,
        ),
        _ => Err(ParseError::Selector),
    }
}

fn scraped_date(dates: &Vec<Element>) -> (r: Option<String>)
    ensures
        match r {
            Some(day) => release_date(elements_view(dates@)) == Some(day@),
            None => release_date(elements_view(dates@)) is None,
        },
{
    if dates.len() >= 2 {
        assert(elements_view(dates@)[1] == dates@[1]@);
        get_nelo_time(dates[1].text.as_str())
    } else {
        None
    }
}

/// Reads a title page: name, cover address, release date and chapter
/// listing, the listing oldest first.
pub fn extract_title(body: &str, sel: &Selectors) -> (r: Result<Page, ParseError>)
    ensures
        page_result_view(r) == extracted(body@, *sel),
{
    let titles = select_elements(body, sel.title.as_str(), "");
    let covers = select_elements(body, sel.cover.as_str(), "src");
    let dates = select_elements(body, sel.dates.as_str(), "");
    let links = select_elements(body, sel.links.as_str(), "href");
    match (titles, covers, dates, links) {
        (Some(titles), Some(covers), Some(dates), Some(links)) => {
            let date = scraped_date(&dates);
            build_page(&titles, &covers, date, &links)
        },
        _ => Err(ParseError::Selector),
    }
}

/// The image count that belongs to the chapter at `k`: zero where the
/// probe gave none.
pub open spec fn count_at(counts: Seq<u32>, k: int) -> u32 {
    if 0 <= k < counts.len() {
        counts[k]
    } else {
        0
    }
}

/// The chapters that `links` and the probed `counts` make up, position by
/// position.
pub open spec fn chapters_of(links: Seq<LinkView>, counts: Seq<u32>) -> Seq<ChapterView> {
    Seq::new(
        links.len(),
        |k: int| ChapterView { t: links[k].desc, s: href_suffix(links[k].href), i: count_at(counts, k) },
    )
}

/// Pairs each link with its image count. A link without a count gets 0.
pub fn build_chapters(links: &Vec<Link>, counts: &Vec<u32>) -> (chapters: Vec<Chapter>)
    ensures
        chapters_view(chapters@) == chapters_of(links_view(links@), counts@),
{
    let mut chapters: Vec<Chapter> = Vec::new();
    let mut k: usize = 0;
    while k < links.len()
        invariant
            k <= links.len(),
            chapters.len() == k,
            forall|j: int|
                0 <= j < k ==> (#[trigger] chapters@[j])@ == chapters_of(
                    links_view(links@),
                    counts@,
                )[j],
        decreases links.len() - k,
    {
        let count: u32 = if k < counts.len() {
            counts[k]
        } else {
            0
        };
        assert(links_view(links@)[k as int] == links@[k as int]@);
        chapters.push(
            Chapter { t: links[k].desc.clone(), s: href_tail(links[k].href.as_str()), i: count },
        );
        k = k + 1;
    }
    assert(chapters_view(chapters@) =~= chapters_of(links_view(links@), counts@));
    chapters
}

/// Everything that adding a title needs: the page's fields, the chapters
/// with their image counts, and the cover's bytes.
pub struct WebResult {
    pub title: String,
    pub chap_prefix: String,
    pub last_updated: String,
    pub chapters: Vec<Chapter>,
    pub cover: Vec<u8>,
}

impl Page {
    /// Completes the page with the probed image counts and the cover.
    pub fn into_result(self, counts: &Vec<u32>, cover: Vec<u8>) -> (r: WebResult)
        ensures
            r.title == self.title,
            r.chap_prefix == self.chap_prefix,
            r.last_updated == self.last_updated,
            chapters_view(r.chapters@) == chapters_of(links_view(self.links@), counts@),
            r.cover == cover,
    {
        let chapters = build_chapters(&self.links, counts);
        WebResult {
            title: self.title,
            chap_prefix: self.chap_prefix,
            last_updated: self.last_updated,
            chapters,
            cover,
        }
    }
}

/// On a page that was read, the stored prefix and the first chapter's suffix
/// put together give the href of the oldest chapter, which is the last entry
/// of the page's listing.
pub proof fn lemma_first_chapter_address(
    titles: Seq<(Seq<char>, Option<Seq<char>>)>,
    covers: Seq<(Seq<char>, Option<Seq<char>>)>,
    date: Option<Seq<char>>,
    links: Seq<(Seq<char>, Option<Seq<char>>)>,
    counts: Seq<u32>,
)
    requires
        page_of(titles, covers, date, links) is Ok,
    ensures
        ({
            let page = page_of(titles, covers, date, links)->Ok_0;
            let chapters = chapters_of(page.links, counts);
            &&& chapters.len() == links.len()
            &&& chapters.len() > 0
            &&& page.chap_prefix + chapters[0].s == links.last().1->0
            &&& forall|k: int|
                0 <= k < chapters.len() ==> (#[trigger] chapters[k]).t == links[links.len() - 1
                    - k].0
        }),
{
    lemma_href_parts(links.last().1->0);
}

/// What a second look at a title's page found.
pub struct Rescan {
    /// Release date of the newest chapter on the page.
    pub last_scanned: String,
    /// Whether the page lists another number of chapters than the title
    /// holds.
    pub changed: bool,
    /// The chapters that the title does not hold yet, oldest first.
    pub fresh: Vec<Link>,
}

/// A rescan as plain text.
pub struct RescanView {
    pub last_scanned: Seq<char>,
    pub changed: bool,
    pub fresh: Seq<LinkView>,
}

impl View for Rescan {
    type V = RescanView;

    open spec fn view(&self) -> RescanView {
        RescanView {
            last_scanned: self.last_scanned@,
            changed: self.changed,
            fresh: links_view(self.fresh@),
        }
    }
}

/// The entries of the listing beyond the `known` oldest ones, oldest first.
pub open spec fn fresh_links(known: nat, links: Seq<(Seq<char>, Option<Seq<char>>)>) -> Seq<
    LinkView,
> {
    if links.len() > known {
        oldest_first(links).skip(known as int)
    } else {
        Seq::empty()
    }
}

/// What a listing means to a title that holds `known` chapters. A page
/// without a chapter listing is no page of a title: it is refused as it is
/// when a title is first read, whatever the title holds.
pub open spec fn rescan_of(
    known: nat,
    date: Option<Seq<char>>,
    links: Seq<(Seq<char>, Option<Seq<char>>)>,
) -> Result<RescanView, ParseError> {
    if date is None {
        Err(ParseError::Date)
    } else if links.len() == 0 {
        Err(ParseError::Chapters)
    } else if !all_links(links) {
        Err(ParseError::Href)
    } else {
        Ok(
            RescanView {
                last_scanned: date->0,
                changed: links.len() != known,
                fresh: fresh_links(known, links),
            },
        )
    }
}

/// What reading the page `body` again yields for a title that holds
/// `known` chapters.
pub open spec fn rescanned(known: nat, body: Seq<char>, sel: Selectors) -> Result<
    RescanView,
    ParseError,
> {
    match (selected(body, sel.dates@, ""@), selected(body, sel.links@, "href"@)) {
        (Some(dates), Some(links)) => rescan_of(known, release_date(dates), links),
        _ => Err(ParseError::Selector),
    }
}

/// The view of a rescan result.
pub open spec fn rescan_result_view(r: Result<Rescan, ParseError>) -> Result<
    RescanView,
    ParseError,
> {
    match r {
        Ok(scan) => Ok(scan@),
        Err(e) => Err(e),
    }
}

/// A page that lists as many chapters as the title holds, and at least
/// one, changes nothing: the rescan reports no change and no new chapter.
pub proof fn lemma_rescan_unchanged(
    known: nat,
    date: Seq<char>,
    links: Seq<(Seq<char>, Option<Seq<char>>)>,
)
    requires
        all_links(links),
        links.len() == known,
        links.len() > 0,
    ensures
        rescan_of(known, Some(date), links) == Ok::<RescanView, ParseError>(
            RescanView { last_scanned: date, changed: false, fresh: Seq::empty() },
        ),
{
}

/// A page that lists `extra` chapters more than the title holds yields
/// exactly those: `extra` links, the ones that the page lists first, oldest
/// first.
pub proof fn lemma_rescan_grown(
    known: nat,
    extra: nat,
    date: Seq<char>,
    links: Seq<(Seq<char>, Option<Seq<char>>)>,
)
    requires
        all_links(links),
        links.len() == known + extra,
        extra > 0,
    ensures
        rescan_of(known, Some(date), links) is Ok,
        rescan_of(known, Some(date), links)->Ok_0.changed,
        rescan_of(known, Some(date), links)->Ok_0.fresh.len() == extra,
        forall|k: int|
            0 <= k < extra ==> #[trigger] rescan_of(known, Some(date), links)->Ok_0.fresh[k]
                == (LinkView { desc: links[extra - 1 - k].0, href: links[extra - 1 - k].1->0 }),
{
}

/// Compares a fresh listing with the number of chapters already held. The
/// chapters held are never looked at, only counted. An empty listing is an
/// error, so that a page which lost its chapters changes no title.
pub fn compare_listing(known: usize, date: Option<String>, links: &Vec<Element>) -> (r: Result<
    Rescan,
    ParseError,
>)
    ensures
        rescan_result_view(r) == rescan_of(
            known as nat,
            match date {
                Some(day) => Some(day@),
                None => None,
            },
            elements_view(links@),
        ),
{
    let last_scanned = match date {
        Some(day) => day,
        None => {
            return Err(ParseError::Date);
        },
    };
    if links.len() == 0 {
        return Err(ParseError::Chapters);
    }
    let mut ordered = match ordered_links(links) {
        Some(ordered) => ordered,
        None => {
            return Err(ParseError::Href);
        },
    };
    let ghost listing = elements_view(links@);
    let ghost all = ordered@;
    assert(links_view(all).len() == all.len());
    assert(oldest_first(listing).len() == listing.len());
    let changed = ordered.len() != known;
    let fresh = if ordered.len() > known {
        let tail = ordered.split_off(known);
        assert(links_view(tail@) =~= links_view(all).skip(known as int));
        tail
    } else {
        Vec::new()
    };
    assert(links_view(fresh@) =~= fresh_links(known as nat, listing));
    Ok(Rescan { last_scanned, changed, fresh })
}

/// Reads a title's page again and says what is new. The title itself is
/// only read.
pub fn rescan(title: &Title, body: &str, sel: &Selectors) -> (r: Result<Rescan, ParseError>)
    ensures
        rescan_result_view(r) == rescanned(title.chapters@.len(), body@, *sel),
{
    let dates = select_elements(body, sel.dates.as_str(), "");
    let links = select_elements(body, sel.links.as_str(), "href");
    match (dates, links) {
        (Some(dates), Some(links)) => {
            let date = scraped_date(&dates);
            compare_listing(title.chapters.len(), date, &links)
        },
        _ => Err(ParseError::Selector),
    }
}

/// Takes the result of a rescan into the title. The scan date is always
/// recorded. When the page had changed, the new chapters are appended with
/// their image counts and the title is dated anew; the chapters already
/// held stay as they are.
pub fn update_title(title: &mut Title, scan: Rescan, counts: &Vec<u32>) -> (r: Option<()>)
    ensures
        r is Some <==> scan.changed,
        final(title).last_scanned@ == scan.last_scanned@,
        final(title).id == old(title).id,
        final(title).name == old(title).name,
        final(title).url == old(title).url,
        final(title).chap_prefix == old(title).chap_prefix,
        final(title).last_chap == old(title).last_chap,
        final(title).last_read == old(title).last_read,
        final(title).tags == old(title).tags,
        !scan.changed ==> final(title).chapters@ == old(title).chapters@,
        !scan.changed ==> final(title).last_updated == old(title).last_updated,
        scan.changed ==> {
            &&& final(title).last_updated@ == scan.last_scanned@
            &&& final(title).chapters@.len() == old(title).chapters@.len() + scan.fresh@.len()
            &&& final(title).chapters@.take(old(title).chapters@.len() as int)
                == old(title).chapters@
            &&& chapters_view(final(title).chapters@.skip(old(title).chapters@.len() as int))
                == chapters_of(links_view(scan.fresh@), counts@)
        },
{
    if !scan.changed {
        title.last_scanned = scan.last_scanned;
        return None;
    }
    title.last_updated = scan.last_scanned.clone();
    title.last_scanned = scan.last_scanned;
    let mut added = build_chapters(&scan.fresh, counts);
    let ghost grown = added@;
    assert(chapters_view(grown).len() == grown.len());
    title.chapters.append(&mut added);
    assert(title.chapters@.take(old(title).chapters@.len() as int) =~= old(title).chapters@);
    assert(title.chapters@.skip(old(title).chapters@.len() as int) =~= grown);
    Some(())
}

/// The views of a list of strings.
pub open spec fn strings_view(list: Seq<String>) -> Seq<Seq<char>> {
    list.map_values(|s: String| s@)
}

/// Whether every matched image carries a source.
pub open spec fn all_sourced(found: Seq<(Seq<char>, Option<Seq<char>>)>) -> bool {
    forall|k: int| 0 <= k < found.len() ==> (#[trigger] found[k]).1 is Some
}

/// The sources of the matched images, in the order in which they were
/// matched.
pub open spec fn sources_of(found: Seq<(Seq<char>, Option<Seq<char>>)>) -> Seq<Seq<char>> {
    Seq::new(found.len(), |k: int| found[k].1->0)
}

/// The image sources of the chapter page `body`.
pub open spec fn chapter_images(body: Seq<char>, sel: Selectors) -> Result<
    Seq<Seq<char>>,
    ParseError,
> {
    match selected(body, sel.images@, "src"@) {
        None => Err(ParseError::Selector),
        Some(found) => if all_sourced(found) {
            Ok(sources_of(found))
        } else {
            Err(ParseError::Image)
        },
    }
}

/// The sources of matched image elements; `None` when one has none.
pub fn image_sources(found: &Vec<Element>) -> (r: Option<Vec<String>>)
    ensures
        r is Some <==> all_sourced(elements_view(found@)),
        r matches Some(srcs) ==> strings_view(srcs@) == sources_of(elements_view(found@)),
{
    let ghost listing = elements_view(found@);
    let mut srcs: Vec<String> = Vec::new();
    let mut k: usize = 0;
    while k < found.len()
        invariant
            k <= found.len(),
            listing == elements_view(found@),
            srcs@.len() == k,
            forall|j: int| 0 <= j < k ==> (#[trigger] listing[j]).1 is Some,
            forall|j: int| 0 <= j < k ==> (#[trigger] srcs@[j])@ == listing[j].1->0,
        decreases found.len() - k,
    {
        assert(listing[k as int] == found@[k as int]@);
        match &found[k].attr {
            Some(src) => {
                srcs.push(src.clone());
            },
            None => {
                return None;
            },
        }
        k = k + 1;
    }
    assert(strings_view(srcs@) =~= sources_of(listing));
    Some(srcs)
}

/// The image references of a chapter page, in the order in which the
/// selection yields them. A page
/// without images gives an empty list, which is no error.
pub fn get_images_src(body: &str, sel: &Selectors) -> (r: Result<Vec<String>, ParseError>)
    ensures
        match r {
            Ok(srcs) => chapter_images(body@, *sel) == Ok::<Seq<Seq<char>>, ParseError>(
                strings_view(srcs@),
            ),
            Err(e) => chapter_images(body@, *sel) == Err::<Seq<Seq<char>>, ParseError>(e),
        },
{
    match select_elements(body, sel.images.as_str(), "src") {
        None => Err(ParseError::Selector),
        Some(found) => match image_sources(&found) {
            Some(srcs) => Ok(srcs),
            None => Err(ParseError::Image),
        },
    }
}

/// The number of images that `count` elements stand for: `u32::MAX` when
/// there are more than that.
pub open spec fn image_total(count: nat) -> u32 {
    if count <= u32::MAX {
        count as u32
    } else {
        u32::MAX
    }
}

/// Counts the matched image elements.
pub fn count_images(found: &Vec<Element>) -> (count: u32)
    ensures
        count == image_total(found@.len()),
{
    if found.len() > 4294967295 {
        4294967295
    } else {
        found.len() as u32
    }
}

/// The number of images on the chapter page `body`.
pub fn get_num_images(body: &str, sel: &Selectors) -> (r: Result<u32, ParseError>)
    ensures
        match selected(body@, sel.images@, "src"@) {
            Some(found) => r == Ok::<u32, ParseError>(image_total(found.len())),
            None => r == Err::<u32, ParseError>(ParseError::Selector),
        },
{
    match select_elements(body, sel.images.as_str(), "src") {
        Some(found) => {
            assert(elements_view(found@).len() == found@.len());
            Ok(count_images(&found))
        },
        None => Err(ParseError::Selector),
    }
}

/// One image to fetch, and the file to keep it in.
pub struct Job {
    pub src: String,
    pub path: String,
}

/// Whether `jobs` fetch `srcs` in order, image `k` into file `k` of `dir`.
pub open spec fn jobs_for(jobs: Seq<Job>, dir: Seq<char>, srcs: Seq<String>) -> bool {
    &&& jobs.len() == srcs.len()
    &&& forall|k: int|
        0 <= k < jobs.len() ==> (#[trigger] jobs[k]).src@ == srcs[k]@ && jobs[k].path@
            == image_file_name(dir, k as nat)
}

/// Plans the download of a chapter: one job per image, in the order of
/// `srcs`, each with the file in `chapter_dir` that is named by the image's
/// position.
pub fn download_chapter(chapter_dir: &str, srcs: &Vec<String>) -> (jobs: Vec<Job>)
    ensures
        jobs_for(jobs@, chapter_dir@, srcs@),
{
    let mut jobs: Vec<Job> = Vec::new();
    let mut k: usize = 0;
    while k < srcs.len()
        invariant
            k <= srcs.len(),
            jobs_for(jobs@, chapter_dir@, srcs@.take(k as int)),
        decreases srcs.len() - k,
    {
        jobs.push(Job { src: srcs[k].clone(), path: image_path(chapter_dir, k) });
        k = k + 1;
    }
    assert(srcs@.take(k as int) =~= srcs@);
    jobs
}

} // verus!
