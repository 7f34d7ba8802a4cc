//! News feeds: what the items of an RSS or Atom document are.

use std::borrow::Cow;

use quick_xml::events::Event;
use vstd::prelude::*;
use vstd::utf8::*;

use crate::bytes::{lossy, lossy_text};
use crate::feed::XmlEvent::{Empty, End, Eof, Failed, Other, Start, Text};
use crate::json::{with_field, Json, JsonMap, JsonView};
use crate::text::{
    begins, clip, clipped, lemma_split_head, lemma_split_plain, split, starts_with, views,
};

verus! {

/// `quick_xml`'s reader, carried through as it is.
#[verifier::external_type_specification]
#[verifier::external_body]
#[verifier::reject_recursive_types(R)]
pub struct ExReader<R>(quick_xml::Reader<R>);

/// What the reader of an XML document comes across, as far as feeds go.
#[derive(Debug)]
pub enum XmlEvent {
    Start(Vec<u8>),
    /// An element without content: its name, and each attribute's key and value
    /// where the attribute can be read.
    Empty(Vec<u8>, Vec<Option<(Vec<u8>, Vec<u8>)>>),
    /// Text with its entities resolved, where they can be.
    Text(Option<String>),
    End(Vec<u8>),
    Eof,
    Failed(String),
    Other,
}

/// The meaning of an [`XmlEvent`].
pub enum XmlView {
    Start(Seq<u8>),
    Empty(Seq<u8>, Seq<Option<(Seq<u8>, Seq<u8>)>>),
    Text(Option<Seq<char>>),
    End(Seq<u8>),
    Eof,
    Failed(Seq<char>),
    Other,
}

/// The contents of an attribute.
pub open spec fn attr_view(a: Option<(Vec<u8>, Vec<u8>)>) -> Option<(Seq<u8>, Seq<u8>)> {
    match a {
        Some((k, v)) => Some((k@, v@)),
        None => None,
    }
}

/// The contents of a list of attributes.
pub open spec fn attr_views(v: Seq<Option<(Vec<u8>, Vec<u8>)>>) -> Seq<Option<(Seq<u8>, Seq<u8>)>> {
    Seq::new(v.len(), |i: int| attr_view(v[i]))
}

impl View for XmlEvent {
    type V = XmlView;

    open spec fn view(&self) -> XmlView {
        match self {
            XmlEvent::Start(n) => XmlView::Start(n@),
            XmlEvent::Empty(n, a) => XmlView::Empty(n@, attr_views(a@)),
            XmlEvent::Text(t) => XmlView::Text(crate::text::opt_view(*t)),
            XmlEvent::End(n) => XmlView::End(n@),
            XmlEvent::Eof => XmlView::Eof,
            XmlEvent::Failed(m) => XmlView::Failed(m@),
            XmlEvent::Other => XmlView::Other,
        }
    }
}

/// The views of a list of events.
pub open spec fn event_views(v: Seq<XmlEvent>) -> Seq<XmlView> {
    Seq::new(v.len(), |i: int| v[i]@)
}

/// Is there nothing more to read behind this event?
pub open spec fn is_end(e: XmlView) -> bool {
    e is Eof || e is Failed
}

// ---------------------------------------------------------------------------
// Reading the document
// ---------------------------------------------------------------------------

/// The events that `quick_xml` comes across in a document, with text trimmed, up
/// to and including its end or the first error.
pub uninterp spec fn xml_events(document: Seq<char>) -> Seq<XmlView>;

/// The events that a reader comes across from here on, up to and including the
/// first end or error.
pub uninterp spec fn pending(reader: quick_xml::Reader<&[u8]>) -> Seq<XmlView>;

/// Starts reading with `quick_xml::Reader::from_str`, with text trimmed. The
/// contract names the events that lie ahead, which depend on the document alone.
/// There is at least one: the end of the document, if nothing else.
#[verifier::external_body]
fn open_document(document: &str) -> (r: quick_xml::Reader<&[u8]>)
    ensures
        pending(r) == xml_events(document@),
        pending(r).len() > 0,
{
    let mut reader = quick_xml::Reader::from_str(document);
    reader.config_mut().trim_text(true);
    reader
}

/// Reads one event with `quick_xml::Reader::read_event_into`, and takes from it
/// the element's name, the attributes, or the text with its entities resolved.
/// The contract says that the events come in their order, one per call, and that
/// one follows as long as neither the end nor an error has come. Of a reader that
/// has come to the end or to an error it says nothing.
#[verifier::external_body]
fn next_event(reader: &mut quick_xml::Reader<&[u8]>) -> (r: XmlEvent)
    requires
        pending(*old(reader)).len() > 0,
    ensures
        r@ == pending(*old(reader))[0],
        !is_end(r@) ==> pending(*final(reader)) == pending(*old(reader)).drop_first()
            && pending(*final(reader)).len() > 0,
{
    match reader.read_event_into(&mut Vec::new()) {
        Ok(Event::Start(e)) => Start(e.name().0.to_vec()),
        Ok(Event::Empty(e)) => Empty(e.name().0.to_vec(), e.attributes()
            .map(|a| a.ok().map(|a| (a.key.0.to_vec(), a.value.into_owned()))).collect()),
        Ok(Event::Text(t)) => Text(t.unescape().ok().map(Cow::into_owned)),
        Ok(Event::End(e)) => End(e.name().0.to_vec()),
        Ok(Event::Eof) => Eof,
        Ok(_) => Other,
        Err(e) => Failed(e.to_string()),
    }
}

// ---------------------------------------------------------------------------
// The items
// ---------------------------------------------------------------------------

/// An item of a feed.
#[derive(Debug, Clone)]
pub struct FeedItem {
    pub title: String,
    pub link: String,
    /// The host that the feed came from.
    pub feed: String,
}

/// The meaning of a [`FeedItem`].
pub struct ItemView {
    pub title: Seq<char>,
    pub link: Seq<char>,
    pub feed: Seq<char>,
}

impl View for FeedItem {
    type V = ItemView;

    open spec fn view(&self) -> ItemView {
        ItemView { title: self.title@, link: self.link@, feed: self.feed@ }
    }
}

/// The views of a list of items.
pub open spec fn item_views(v: Seq<FeedItem>) -> Seq<ItemView> {
    Seq::new(v.len(), |i: int| v[i]@)
}

/// How many characters of a title are shown.
pub const MAX_TITLE: usize = 180;

/// What has been read of a feed so far.
pub struct Progress {
    pub in_item: bool,
    pub title: Seq<char>,
    pub link: Seq<char>,
    pub items: Seq<ItemView>,
}

/// Is this the name of an item, in RSS or in Atom?
pub open spec fn names_item(name: Seq<u8>) -> bool {
    name == encode_utf8("item"@) || name == encode_utf8("entry"@)
}

/// The address that attributes give: that of the last `href`, or the one that
/// there was.
pub open spec fn href_of(attrs: Seq<Option<(Seq<u8>, Seq<u8>)>>, link: Seq<char>) -> Seq<char>
    decreases attrs.len(),
{
    if attrs.len() == 0 {
        link
    } else {
        match attrs.last() {
            Some((k, v)) => if k == encode_utf8("href"@) {
                lossy_text(v)
            } else {
                href_of(attrs.drop_last(), link)
            },
            None => href_of(attrs.drop_last(), link),
        }
    }
}

/// What an event adds to what has been read. The first text of an item is its
/// title; its address is an `href` of an empty `link` element, or a later text
/// that looks like one. An item without a title is dropped.
pub open spec fn advance(p: Progress, e: XmlView, host: Seq<char>) -> Progress {
    match e {
        XmlView::Start(name) => if names_item(name) {
            Progress { in_item: true, title: seq![], link: seq![], items: p.items }
        } else {
            p
        },
        XmlView::Empty(name, attrs) => if p.in_item && name == encode_utf8("link"@) {
            Progress { link: href_of(attrs, p.link), ..p }
        } else {
            p
        },
        XmlView::Text(t) => {
            let text = match t {
                Some(s) => s,
                None => seq![],
            };
            if !p.in_item {
                p
            } else if p.title.len() == 0 {
                Progress { title: text, ..p }
            } else if p.link.len() == 0 && begins(text, "http"@) {
                Progress { link: text, ..p }
            } else {
                p
            }
        },
        XmlView::End(name) => if names_item(name) && p.in_item {
            Progress {
                in_item: false,
                items: if p.title.len() == 0 {
                    p.items
                } else {
                    p.items.push(
                        ItemView {
                            title: clipped(p.title, MAX_TITLE as int),
                            link: p.link,
                            feed: host,
                        },
                    )
                },
                ..p
            }
        } else {
            p
        },
        _ => p,
    }
}

/// Nothing has been read.
pub open spec fn at_start() -> Progress {
    Progress { in_item: false, title: seq![], link: seq![], items: seq![] }
}

/// The items that the events give, from some progress on: up to the end of the
/// document, or the error that came first.
pub open spec fn finished(p: Progress, events: Seq<XmlView>, host: Seq<char>) -> Result<
    Seq<ItemView>,
    Seq<char>,
>
    decreases events.len(),
{
    if events.len() == 0 {
        Ok(p.items)
    } else {
        match events[0] {
            XmlView::Eof => Ok(p.items),
            XmlView::Failed(m) => Err(m),
            e => finished(advance(p, e, host), events.drop_first(), host),
        }
    }
}

/// The items of a feed with these events.
pub open spec fn feed_of(events: Seq<XmlView>, host: Seq<char>) -> Result<
    Seq<ItemView>,
    Seq<char>,
> {
    finished(at_start(), events, host)
}

/// Do the bytes write this text?
fn bytes_are(b: &Vec<u8>, s: &str) -> (r: bool)
    ensures
        r == (b@ == encode_utf8(s@)),
{
    let t = s.as_bytes();
    if b.len() != t.len() {
        return false;
    }
    let mut i: usize = 0;
    while i < t.len()
        invariant
            i <= t@.len(),
            b@.len() == t@.len(),
            t@ == encode_utf8(s@),
            forall|j: int| 0 <= j < i ==> b@[j] == t@[j],
        decreases t.len() - i,
    {
        if b[i] != t[i] {
            assert(b@[i as int] != encode_utf8(s@)[i as int]);
            return false;
        }
        i = i + 1;
    }
    assert(b@ =~= t@);
    true
}

/// Is this the name of an item, in RSS or in Atom?
fn is_item(name: &Vec<u8>) -> (r: bool)
    ensures
        r == names_item(name@),
{
    bytes_are(name, "item") || bytes_are(name, "entry")
}

/// The address that attributes give.
fn find_href(attrs: &Vec<Option<(Vec<u8>, Vec<u8>)>>, link: String) -> (r: String)
    ensures
        r@ == href_of(attr_views(attrs@), link@),
{
    let ghost av = attr_views(attrs@);
    let mut i: usize = attrs.len();
    assert(av.take(av.len() as int) =~= av);
    while i > 0
        invariant
            i <= attrs@.len(),
            av == attr_views(attrs@),
            href_of(av, link@) == href_of(av.take(i as int), link@),
        decreases i,
    {
        assert(av.take(i as int).last() == attr_view(attrs@[i - 1]));
        assert(av.take(i as int).drop_last() =~= av.take(i - 1));
        if let Some((k, v)) = &attrs[i - 1] {
            if bytes_are(k, "href") {
                return lossy(v);
            }
        }
        i = i - 1;
    }
    link
}

/// The items that events give.
pub fn feed_from_events(events: &Vec<XmlEvent>, host: &str) -> (r: Result<Vec<FeedItem>, String>)
    ensures
        match (r, feed_of(event_views(events@), host@)) {
            (Ok(items), Ok(v)) => item_views(items@) == v,
            (Err(a), Err(b)) => a@ == b,
            _ => false,
        },
{
    let ghost ev = event_views(events@);
    let mut in_item = false;
    let mut title = String::new();
    let mut link = String::new();
    let mut items: Vec<FeedItem> = Vec::new();
    let mut i: usize = 0;
    let ghost mut p = at_start();
    assert(ev.skip(0) =~= ev);
    assert(item_views(items@) =~= p.items);
    while i < events.len()
        invariant
            i <= events@.len(),
            ev == event_views(events@),
            p == (Progress { in_item, title: title@, link: link@, items: item_views(items@) }),
            feed_of(ev, host@) == finished(p, ev.skip(i as int), host@),
        decreases events.len() - i,
    {
        let ghost e = ev[i as int];
        let ghost before = p;
        assert(ev.skip(i as int)[0] == e);
        assert(e == events@[i as int]@);
        assert(ev.skip(i as int).drop_first() =~= ev.skip(i + 1));
        match &events[i] {
            XmlEvent::Start(name) => {
                if is_item(name) {
                    in_item = true;
                    title = String::new();
                    link = String::new();
                }
            },
            XmlEvent::Empty(name, attrs) => {
                if in_item && bytes_are(name, "link") {
                    link = find_href(attrs, link);
                }
            },
            XmlEvent::Text(t) => {
                if in_item {
                    let text = match t {
                        Some(s) => s.clone(),
                        None => String::new(),
                    };
                    if title.as_str().is_empty() {
                        title = text;
                    } else if link.as_str().is_empty() && starts_with(text.as_str(), "http") {
                        link = text;
                    }
                }
            },
            XmlEvent::End(name) => {
                if is_item(name) && in_item {
                    in_item = false;
                    if !title.as_str().is_empty() {
                        let ghost earlier = item_views(items@);
                        let item = FeedItem {
                            title: clip(title.as_str(), MAX_TITLE),
                            link: link.clone(),
                            feed: String::from_str(host),
                        };
                        items.push(item);
                        assert(item_views(items@) =~= earlier.push(item@));
                    }
                }
            },
            XmlEvent::Eof => {
                return Ok(items);
            },
            XmlEvent::Failed(m) => {
                return Err(m.clone());
            },
            XmlEvent::Other => {},
        }
        proof {
            p = advance(before, e, host@);
            let now = Progress { in_item, title: title@, link: link@, items: item_views(items@) };
            assert(now.title =~= p.title);
            assert(now.link =~= p.link);
            assert(now.items =~= p.items);
            assert(now == p);
        }
        i = i + 1;
    }
    Ok(items)
}

/// The items of the feed in a document.
pub fn read_feed(document: &str, host: &str) -> (r: Result<Vec<FeedItem>, String>)
    ensures
        match (r, feed_of(xml_events(document@), host@)) {
            (Ok(items), Ok(v)) => item_views(items@) == v,
            (Err(a), Err(b)) => a@ == b,
            _ => false,
        },
{
    let mut reader = open_document(document);
    let ghost all = xml_events(document@);
    let mut events: Vec<XmlEvent> = Vec::new();
    let mut more = true;
    assert(event_views(events@) =~= all.take(0));
    assert(all.skip(0) =~= all);
    while more
        invariant
            all == xml_events(document@),
            events@.len() <= all.len(),
            event_views(events@) == all.take(events@.len() as int),
            more ==> pending(reader) == all.skip(events@.len() as int) && pending(reader).len() > 0,
            !more ==> events@.len() > 0 && is_end(events@[events@.len() - 1]@),
        decreases (if more { 1nat } else { 0nat }) + all.len() - events@.len(),
    {
        let ghost n = events@.len() as int;
        let e = next_event(&mut reader);
        more = match &e {
            XmlEvent::Eof => false,
            XmlEvent::Failed(_) => false,
            _ => true,
        };
        events.push(e);
        proof {
            assert(event_views(events@) =~= all.take(n).push(all[n]));
            assert(all.take(n).push(all[n]) =~= all.take(n + 1));
            assert(all.skip(n).drop_first() =~= all.skip(n + 1));
        }
    }
    proof {
        let n = events@.len() as int;
        assert(all.take(n) + all.skip(n) =~= all);
        lemma_stops_at_the_end(at_start(), event_views(events@), all.skip(n), host@);
    }
    feed_from_events(&events, host)
}

/// What stands behind the end of a document, or behind an error, does not matter.
proof fn lemma_stops_at_the_end(
    p: Progress,
    events: Seq<XmlView>,
    behind: Seq<XmlView>,
    host: Seq<char>,
)
    requires
        events.len() > 0,
        is_end(events.last()),
    ensures
        finished(p, events + behind, host) == finished(p, events, host),
    decreases events.len(),
{
    assert((events + behind)[0] == events[0]);
    if !is_end(events[0]) {
        assert(events.len() > 1);
        assert((events + behind).drop_first() =~= events.drop_first() + behind);
        assert(events.drop_first().last() == events.last());
        lemma_stops_at_the_end(advance(p, events[0], host), events.drop_first(), behind, host);
    }
}

/// Every item that comes out has a title, of no more than so many characters, and
/// bears the feed's host.
pub proof fn items_have_titles(p: Progress, events: Seq<XmlView>, host: Seq<char>, i: int)
    requires
        finished(p, events, host) is Ok,
        0 <= i < finished(p, events, host)->Ok_0.len(),
        forall|k: int|
            0 <= k < p.items.len() ==> 0 < (#[trigger] p.items[k]).title.len() <= MAX_TITLE
                && p.items[k].feed == host,
    ensures
        0 < finished(p, events, host)->Ok_0[i].title.len() <= MAX_TITLE,
        finished(p, events, host)->Ok_0[i].feed == host,
    decreases events.len(),
{
    if events.len() > 0 && !is_end(events[0]) {
        let q = advance(p, events[0], host);
        assert forall|k: int| 0 <= k < q.items.len() implies 0 < (#[trigger] q.items[k]).title.len()
            <= MAX_TITLE && q.items[k].feed == host by {
            if k < p.items.len() {
                assert(q.items[k] == p.items[k]);
            }
        }
        items_have_titles(q, events.drop_first(), host, i);
    }
}

// ---------------------------------------------------------------------------
// The host
// ---------------------------------------------------------------------------

/// The text behind the first double slash.
pub open spec fn after_slashes(url: Seq<char>) -> Option<Seq<char>>
    decreases url.len(),
{
    if url.len() < 2 {
        None
    } else if url[0] == '/' && url[1] == '/' {
        Some(url.skip(2))
    } else {
        after_slashes(url.drop_first())
    }
}

/// The host of an address: what stands between the double slash and the next
/// slash.
pub open spec fn host_of(url: Seq<char>) -> Seq<char> {
    match after_slashes(url) {
        Some(rest) => crate::text::split(rest, '/')[0],
        None => seq![],
    }
}

/// The host of an address.
pub fn feed_host(url: &str) -> (r: String)
    ensures
        r@ == host_of(url@),
{
    let v = crate::text::chars_of(url);
    let mut i: usize = 0;
    assert(v@.skip(0) =~= url@);
    while v.len() - i > 1
        invariant
            i <= v@.len(),
            v@ == url@,
            after_slashes(url@) == after_slashes(v@.skip(i as int)),
        decreases v.len() - i,
    {
        assert(v@.skip(i as int)[0] == v@[i as int] && v@.skip(i as int)[1] == v@[i + 1]);
        if v[i] == '/' && v[i + 1] == '/' {
            let rest = crate::text::string_from(&v, i + 2, v.len());
            assert(rest@ =~= v@.skip(i as int).skip(2));
            let parts = crate::text::split_char(rest.as_str(), '/');
            proof {
                crate::text::lemma_split_parts(rest@, '/');
                assert(views(parts@)[0] == parts@[0]@);
            }
            return parts[0].clone();
        }
        assert(v@.skip(i as int).drop_first() =~= v@.skip(i + 1));
        i = i + 1;
    }
    String::new()
}

/// An item as JSON.
pub open spec fn item_json(i: ItemView) -> JsonView {
    let m = with_field(seq![], "title"@, JsonView::Str(i.title));
    let m = with_field(m, "link"@, JsonView::Str(i.link));
    JsonView::Object(with_field(m, "feed"@, JsonView::Str(i.feed)))
}

impl FeedItem {
    /// A copy.
    pub fn dup(&self) -> (r: FeedItem)
        ensures
            r@ == self@,
    {
        FeedItem {
            title: self.title.clone(),
            link: self.link.clone(),
            feed: self.feed.clone(),
        }
    }

    /// The item as JSON.
    pub fn json(&self) -> (r: Json)
        ensures
            r@ == item_json(self@),
    {
        let mut m = JsonMap::new();
        m.insert("title", Json::text(self.title.as_str()));
        m.insert("link", Json::text(self.link.as_str()));
        m.insert("feed", Json::text(self.feed.as_str()));
        Json::object(m)
    }
}

// ---------------------------------------------------------------------------
// Laws of the items
// ---------------------------------------------------------------------------

/// Items are the elements `item`, as RSS has them, and `entry`, as Atom does.
pub proof fn items_are_called_item_or_entry(name: Seq<u8>)
    ensures
        names_item(name) <==> name == encode_utf8("item"@) || name == encode_utf8("entry"@),
{
}

/// Inside an item the first text is the title, and with a title no text changes
/// it. The first text behind the title that begins with `http` is the address,
/// and with an address no text changes anything.
pub proof fn texts_fill_title_and_link_once(p: Progress, t: Seq<char>, host: Seq<char>)
    requires
        p.in_item,
    ensures
        ({
            let q = advance(p, XmlView::Text(Some(t)), host);
            &&& q.in_item && q.items == p.items
            &&& p.title.len() == 0 ==> q.title == t && q.link == p.link
            &&& p.title.len() > 0 ==> q.title == p.title
            &&& p.link.len() > 0 ==> q.link == p.link
            &&& p.title.len() > 0 && p.link.len() == 0 && begins(t, "http"@) ==> q.link == t
            &&& p.title.len() > 0 && p.link.len() == 0 && !begins(t, "http"@) ==> q.link == p.link
            &&& p.title.len() > 0 && p.link.len() > 0 ==> q == p
        }),
        advance(p, XmlView::Text(None), host) == p,
{
    reveal_strlit("http");
    assert(advance(p, XmlView::Text(None), host).title =~= p.title);
}

/// An empty `link` element inside an item gives the address, whatever there was;
/// other empty elements do not count.
pub proof fn a_link_element_gives_the_address(
    p: Progress,
    name: Seq<u8>,
    attrs: Seq<Option<(Seq<u8>, Seq<u8>)>>,
    host: Seq<char>,
)
    requires
        p.in_item,
    ensures
        ({
            let q = advance(p, XmlView::Empty(name, attrs), host);
            &&& q.in_item && q.title == p.title && q.items == p.items
            &&& name == encode_utf8("link"@) ==> q.link == href_of(attrs, p.link)
            &&& name != encode_utf8("link"@) ==> q.link == p.link
        }),
{
}

/// The address of a `link` element is its last `href` that can be read; without
/// one the address stays.
pub proof fn the_last_href_is_the_address(
    front: Seq<Option<(Seq<u8>, Seq<u8>)>>,
    value: Seq<u8>,
    back: Seq<Option<(Seq<u8>, Seq<u8>)>>,
    link: Seq<char>,
)
    requires
        forall|i: int|
            0 <= i < back.len() ==> (#[trigger] back[i] matches Some(a) ==> a.0 != encode_utf8(
                "href"@,
            )),
    ensures
        href_of(front.push(Some((encode_utf8("href"@), value))) + back, link) == lossy_text(value),
        href_of(back, link) == link,
    decreases back.len(),
{
    let all = front.push(Some((encode_utf8("href"@), value))) + back;
    if back.len() == 0 {
        assert(all =~= front.push(Some((encode_utf8("href"@), value))));
    } else {
        let rest = back.drop_last();
        assert forall|i: int| 0 <= i < rest.len() implies (#[trigger] rest[i] matches Some(a) ==> a.0
            != encode_utf8("href"@)) by {
            assert(rest[i] == back[i]);
        }
        the_last_href_is_the_address(front, value, rest, link);
        assert(all.drop_last() =~= front.push(Some((encode_utf8("href"@), value))) + rest);
        assert(all.last() == back[back.len() - 1]);
    }
}

/// Outside an item nothing counts but the beginning of one, and a beginning sets
/// title and address back. Elements of other names begin and end nothing.
pub proof fn only_items_are_read(p: Progress, e: XmlView, host: Seq<char>)
    ensures
        e matches XmlView::Start(name) ==> {
            let q = advance(p, e, host);
            &&& q.items == p.items
            &&& name == encode_utf8("item"@) || name == encode_utf8("entry"@) ==> q.in_item
                && q.title.len() == 0 && q.link.len() == 0
            &&& name != encode_utf8("item"@) && name != encode_utf8("entry"@) ==> q == p
        },
        e matches XmlView::End(name) ==> (name != encode_utf8("item"@) && name != encode_utf8(
            "entry"@,
        ) ==> advance(p, e, host) == p),
        !p.in_item && !(e is Start) ==> advance(p, e, host) == p,
        e is Other ==> advance(p, e, host) == p,
{
}

/// The end of an item adds it behind the earlier ones, with up to 180 characters
/// of its title, its address and the host of its feed; one without a title is
/// dropped.
pub proof fn the_end_of_an_item_adds_it(p: Progress, name: Seq<u8>, host: Seq<char>)
    requires
        p.in_item,
        name == encode_utf8("item"@) || name == encode_utf8("entry"@),
    ensures
        ({
            let q = advance(p, XmlView::End(name), host);
            &&& !q.in_item
            &&& p.title.len() == 0 ==> q.items == p.items
            &&& p.title.len() > 0 ==> q.items.len() == p.items.len() + 1 && q.items.drop_last()
                == p.items && q.items.last().link == p.link && q.items.last().feed == host
            &&& 0 < p.title.len() <= 180 ==> q.items.last().title == p.title
            &&& p.title.len() > 180 ==> q.items.last().title == p.title.take(180)
        }),
{
    let q = advance(p, XmlView::End(name), host);
    if p.title.len() > 0 {
        assert(q.items.drop_last() =~= p.items);
    }
}

/// The texts of an item as events.
pub open spec fn text_events(texts: Seq<Seq<char>>) -> Seq<XmlView> {
    texts.map_values(|t: Seq<char>| XmlView::Text(Some(t)))
}

/// Texts inside an item with a title leave it with the first of them that begins
/// with `http` as its address.
proof fn lemma_texts_pass(
    p: Progress,
    texts: Seq<Seq<char>>,
    k: int,
    rest: Seq<XmlView>,
    host: Seq<char>,
)
    requires
        p.in_item,
        p.title.len() > 0,
        0 <= k <= texts.len(),
        p.link.len() > 0 ==> k == texts.len(),
        p.link.len() == 0 ==> forall|i: int| 0 <= i < k ==> !begins(#[trigger] texts[i], "http"@),
        k < texts.len() ==> begins(texts[k], "http"@),
    ensures
        finished(p, text_events(texts) + rest, host) == finished(
            Progress {
                link: if k < texts.len() {
                    texts[k]
                } else {
                    p.link
                },
                ..p
            },
            rest,
            host,
        ),
    decreases texts.len(),
{
    reveal_strlit("http");
    let events = text_events(texts) + rest;
    if texts.len() == 0 {
        assert(events =~= rest);
        assert((Progress { link: p.link, ..p }) == p);
    } else {
        let more = texts.drop_first();
        assert(events[0] == XmlView::Text(Some(texts[0])));
        assert(events.drop_first() =~= text_events(more) + rest);
        let q = advance(p, events[0], host);
        texts_fill_title_and_link_once(p, texts[0], host);
        assert forall|i: int| 0 <= i < more.len() implies #[trigger] more[i] == texts[i + 1] by {}
        if p.link.len() > 0 {
            lemma_texts_pass(p, more, more.len() as int, rest, host);
        } else if k == 0 {
            assert(q.link == texts[0]);
            assert(texts[0].len() > 0);
            lemma_texts_pass(q, more, more.len() as int, rest, host);
            assert((Progress { link: texts[0], ..p }) == q);
        } else {
            assert(!begins(texts[0], "http"@));
            assert(q == p);
            lemma_texts_pass(p, more, k - 1, rest, host);
        }
    }
}

/// An item whose title and address come as texts: whatever the texts are, the
/// first is the title, and the first of the others that begins with `http`, the
/// one at `k`, is the address. No later text replaces it. Where none does, the
/// item has no address.
pub proof fn an_item_is_made_of_its_texts(
    p: Progress,
    name: Seq<u8>,
    title: Seq<char>,
    texts: Seq<Seq<char>>,
    k: int,
    rest: Seq<XmlView>,
    host: Seq<char>,
)
    requires
        names_item(name),
        0 < title.len() <= 180,
        0 <= k <= texts.len(),
        forall|i: int| 0 <= i < k ==> !begins(#[trigger] texts[i], "http"@),
        k < texts.len() ==> begins(texts[k], "http"@),
    ensures
        ({
            let link = if k < texts.len() {
                texts[k]
            } else {
                seq![]
            };
            finished(
                p,
                seq![XmlView::Start(name), XmlView::Text(Some(title))] + (text_events(texts)
                    + (seq![XmlView::End(name)] + rest)),
                host,
            ) == finished(
                Progress {
                    in_item: false,
                    title,
                    link,
                    items: p.items.push(ItemView { title, link, feed: host }),
                },
                rest,
                host,
            )
        }),
{
    let link = if k < texts.len() {
        texts[k]
    } else {
        seq![]
    };
    let last = seq![XmlView::End(name)] + rest;
    let mid = text_events(texts) + last;
    let all = seq![XmlView::Start(name), XmlView::Text(Some(title))] + mid;
    let one = Progress {
        in_item: true,
        title: Seq::<char>::empty(),
        link: Seq::<char>::empty(),
        items: p.items,
    };
    assert(all[0] == XmlView::Start(name));
    assert(all.drop_first()[0] == XmlView::Text(Some(title)));
    assert(all.drop_first().drop_first() =~= mid);
    let two = Progress { title, ..one };
    assert(advance(p, all[0], host) == one);
    assert(advance(one, XmlView::Text(Some(title)), host) == two);
    assert(finished(p, all, host) == finished(one, all.drop_first(), host));
    assert(finished(one, all.drop_first(), host) == finished(two, mid, host));
    lemma_texts_pass(two, texts, k, last, host);
    let three = Progress { link, ..two };
    assert(last[0] == XmlView::End(name));
    assert(last.drop_first() =~= rest);
}

/// Reading stops at the end of the document with what there is, and at an error
/// with the error, whatever follows; and it never takes an item back or changes
/// it.
pub proof fn reading_stops_at_the_end(
    p: Progress,
    message: Seq<char>,
    rest: Seq<XmlView>,
    host: Seq<char>,
)
    ensures
        finished(p, seq![XmlView::Eof] + rest, host) == Ok::<Seq<ItemView>, Seq<char>>(p.items),
        finished(p, seq![XmlView::Failed(message)] + rest, host) == Err::<
            Seq<ItemView>,
            Seq<char>,
        >(message),
        finished(p, rest, host) matches Ok(items) ==> p.items.len() <= items.len() && items.take(
            p.items.len() as int,
        ) == p.items,
    decreases rest.len(),
{
    assert((seq![XmlView::Eof] + rest)[0] is Eof);
    assert((seq![XmlView::Failed(message)] + rest)[0] == XmlView::Failed(message));
    assert(p.items.take(p.items.len() as int) =~= p.items);
    if rest.len() > 0 && !is_end(rest[0]) {
        let q = advance(p, rest[0], host);
        reading_stops_at_the_end(q, message, rest.drop_first(), host);
        if let Ok(items) = finished(p, rest, host) {
            assert(q.items.take(p.items.len() as int) =~= p.items);
            assert(items.take(p.items.len() as int) =~= items.take(q.items.len() as int).take(
                p.items.len() as int,
            ));
        }
    }
}

/// The host of an address stands between the double slash and the next slash, or
/// the end.
pub proof fn the_host_stands_behind_the_double_slash(
    scheme: Seq<char>,
    host: Seq<char>,
    path: Seq<char>,
)
    requires
        !scheme.contains('/'),
        !host.contains('/'),
    ensures
        host_of(scheme + seq!['/', '/'] + (host + seq!['/'] + path)) == host,
        host_of(scheme + seq!['/', '/'] + host) == host,
        host_of(scheme) == Seq::<char>::empty(),
{
    lemma_behind_slashes(scheme, host + seq!['/'] + path);
    lemma_behind_slashes(scheme, host);
    lemma_split_head(host, '/', path);
    lemma_split_plain(host, '/');
}

/// Where the first double slash is.
proof fn lemma_behind_slashes(scheme: Seq<char>, rest: Seq<char>)
    requires
        !scheme.contains('/'),
    ensures
        after_slashes(scheme + seq!['/', '/'] + rest) == Some(rest),
        after_slashes(scheme) is None,
    decreases scheme.len(),
{
    let url = scheme + seq!['/', '/'] + rest;
    if scheme.len() == 0 {
        assert(url[0] == '/' && url[1] == '/');
        assert(url.skip(2) =~= rest);
    } else {
        let less = scheme.drop_first();
        assert(scheme.contains(scheme[0]));
        assert forall|i: int| 0 <= i < less.len() implies less[i] != '/' by {
            assert(scheme.contains(scheme[i + 1]));
        }
        lemma_behind_slashes(less, rest);
        assert(url[0] == scheme[0]);
        assert(url.drop_first() =~= less + seq!['/', '/'] + rest);
    }
}

/// What is shown of an item is its own title, address and feed.
pub proof fn an_item_is_shown_as_it_is(i: ItemView)
    ensures
        item_json(i).get("title"@) == Some(JsonView::Str(i.title)),
        item_json(i).get("link"@) == Some(JsonView::Str(i.link)),
        item_json(i).get("feed"@) == Some(JsonView::Str(i.feed)),
{
    broadcast use crate::json::reading_behind_setting;

    reveal_strlit("title");
    reveal_strlit("link");
    reveal_strlit("feed");
}

/// A feed is read from outside any item and without any: its first item comes out
/// first, and text in front of it counts for nothing.
pub proof fn a_feed_is_read_from_its_beginning(
    heading: Seq<char>,
    name: Seq<u8>,
    title: Seq<char>,
    host: Seq<char>,
)
    requires
        names_item(name),
        0 < title.len() <= 180,
    ensures
        feed_of(
            seq![
                XmlView::Text(Some(heading)),
                XmlView::Start(name),
                XmlView::Text(Some(title)),
                XmlView::End(name),
                XmlView::Eof,
            ],
            host,
        ) == Ok::<Seq<ItemView>, Seq<char>>(
            seq![ItemView { title, link: seq![], feed: host }],
        ),
        feed_of(seq![XmlView::Eof], host) == Ok::<Seq<ItemView>, Seq<char>>(seq![]),
{
    let p = at_start();
    let all = seq![
        XmlView::Text(Some(heading)),
        XmlView::Start(name),
        XmlView::Text(Some(title)),
        XmlView::End(name),
        XmlView::Eof,
    ];
    let rest = seq![XmlView::Eof];
    let tail = seq![XmlView::Start(name), XmlView::Text(Some(title))] + (text_events(seq![]) + (seq![
        XmlView::End(name),
    ] + rest));
    assert(all.drop_first() =~= tail);
    assert(advance(p, all[0], host) == p);
    an_item_is_made_of_its_texts(p, name, title, seq![], 0, rest, host);
    let item = ItemView { title, link: Seq::<char>::empty(), feed: host };
    assert(p.items.push(item) =~= seq![item]);
    assert(rest[0] is Eof);
}

/// Items mean what they hold, in their order.
pub proof fn items_mean_what_they_hold(v: Seq<FeedItem>, i: int)
    requires
        0 <= i < v.len(),
    ensures
        item_views(v).len() == v.len(),
        item_views(v)[i].title == v[i].title@,
        item_views(v)[i].link == v[i].link@,
        item_views(v)[i].feed == v[i].feed@,
{
}

/// Events mean what they hold: names, attributes, texts and errors.
pub proof fn events_mean_what_they_hold(n: Vec<u8>, t: Option<String>, m: String)
    ensures
        XmlEvent::Start(n)@ == XmlView::Start(n@),
        XmlEvent::End(n)@ == XmlView::End(n@),
        t matches Some(s) ==> XmlEvent::Text(t)@ == XmlView::Text(Some(s@)),
        t is None ==> XmlEvent::Text(t)@ == XmlView::Text(None),
        XmlEvent::Failed(m)@ == XmlView::Failed(m@),
        XmlEvent::Eof@ is Eof && XmlEvent::Other@ is Other,
{
}

} // verus!
