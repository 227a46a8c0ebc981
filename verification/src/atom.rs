//! Atom and RSS feeds.
use quick_xml::events::Event;
use vstd::prelude::*;
use vstd::utf8;

use crate::error::{ErrorModel, RdtError};
use crate::model;
use crate::model::{ItemKind, ItemModel, ItemSource, RedditItem};
use crate::text;

verus! {

// ---------------------------------------------------------------------------
// Reading XML
// ---------------------------------------------------------------------------

/// The name of a tag, and its attributes in order: the name and the value of
/// each, or nothing where it is malformed.
#[derive(Debug)]
pub struct Tag {
    pub name: Vec<u8>,
    pub attributes: Vec<Option<(Vec<u8>, Vec<u8>)>>,
}

/// What a reader meets next in a feed.
#[derive(Debug)]
pub enum XmlEvent {
    Start(Tag),
    Empty(Tag),
    Text(Result<String, String>),
    End(Vec<u8>),
    Eof,
    Other,
}

/// What a [`Tag`] holds.
pub struct TagModel {
    pub name: Seq<u8>,
    pub attributes: Seq<Option<(Seq<u8>, Seq<u8>)>>,
}

/// What an [`XmlEvent`] holds.
pub enum EventModel {
    Start(TagModel),
    Empty(TagModel),
    Text(Result<Seq<char>, Seq<char>>),
    End(Seq<u8>),
    Eof,
    Other,
}

/// What an attribute holds.
pub open spec fn attribute_model(attribute: Option<(Vec<u8>, Vec<u8>)>) -> Option<
    (Seq<u8>, Seq<u8>),
> {
    match attribute {
        Some(pair) => Some((pair.0@, pair.1@)),
        None => None,
    }
}

impl View for Tag {
    type V = TagModel;

    open spec fn view(&self) -> TagModel {
        TagModel {
            name: self.name@,
            attributes: Seq::new(
                self.attributes@.len(),
                |i: int| attribute_model(self.attributes@[i]),
            ),
        }
    }
}

impl View for XmlEvent {
    type V = EventModel;

    open spec fn view(&self) -> EventModel {
        match *self {
            XmlEvent::Start(tag) => EventModel::Start(tag@),
            XmlEvent::Empty(tag) => EventModel::Empty(tag@),
            XmlEvent::Text(Ok(s)) => EventModel::Text(Ok(s@)),
            XmlEvent::Text(Err(words)) => EventModel::Text(Err(words@)),
            XmlEvent::End(name) => EventModel::End(name@),
            XmlEvent::Eof => EventModel::Eof,
            XmlEvent::Other => EventModel::Other,
        }
    }
}

/// A reader of the `quick_xml` crate.
#[verifier::external_type_specification]
#[verifier::external_body]
#[verifier::reject_recursive_types(R)]
pub struct ExReader<R>(quick_xml::Reader<R>);

/// An event of the `quick_xml` crate.
#[verifier::external_type_specification]
#[verifier::external_body]
pub struct ExEvent<'a>(quick_xml::events::Event<'a>);

/// What an event of `quick_xml` holds.
pub uninterp spec fn event_model(event: Event) -> EventModel;

/// What a reader of `quick_xml` will meet, each an event or the words of an
/// error, up to the end of the document or the first error.
pub uninterp spec fn coming(reader: quick_xml::Reader<&[u8]>) -> Seq<Result<EventModel, Seq<char>>>;

/// What `quick_xml` meets in a text, with white space around character data
/// trimmed.
pub uninterp spec fn met_in(xml: Seq<char>) -> Seq<Result<EventModel, Seq<char>>>;

/// The last event is the end of the document or an error, and no other is.
pub open spec fn finished(events: Seq<Result<EventModel, Seq<char>>>) -> bool {
    &&& events.len() > 0
    &&& forall|i: int|
        0 <= i < events.len() ==> (i == events.len() - 1 <==> match #[trigger] events[i] {
            Ok(event) => event is Eof,
            Err(_) => true,
        })
}

/// Calls `quick_xml::Reader::from_str` and switches `trim_text` on. What the
/// reader meets depends on the text alone and comes to an end.
#[verifier::external_body]
fn open_feed(xml: &str) -> (reader: quick_xml::Reader<&[u8]>)
    ensures
        coming(reader) == met_in(xml@),
        finished(coming(reader)),
{
    let mut reader = quick_xml::Reader::from_str(xml);
    reader.config_mut().trim_text(true);
    reader
}

/// Calls `quick_xml::Reader::read_event`, which gives what comes next and
/// leaves the rest.
#[verifier::external_body]
fn read_event<'a>(reader: &mut quick_xml::Reader<&'a [u8]>) -> (r: Result<Event<'a>, String>)
    requires
        coming(*old(reader)).len() > 0,
    ensures
        match r {
            Ok(event) => coming(*old(reader))[0] == Ok::<EventModel, Seq<char>>(
                event_model(event),
            ),
            Err(words) => coming(*old(reader))[0] == Err::<EventModel, Seq<char>>(words@),
        },
        coming(*old(reader)).len() > 1 ==> coming(*final(reader)) == coming(*old(reader)).skip(1),
{
    reader.read_event().map_err(|e| e.to_string())
}

/// Takes the variants of `quick_xml::events::Event` apart. The names are read
/// with `name`, the attributes with `attributes`, and character data with
/// `decode`.
#[verifier::external_body]
fn open_event(event: &Event) -> (r: XmlEvent)
    ensures
        r@ == event_model(*event),
{
    let tag = |t: &quick_xml::events::BytesStart| Tag {
        name: t.name().0.to_vec(),
        attributes: t.attributes().map(|a| a.ok().map(|a| (a.key.0.to_vec(), a.value.to_vec()))).collect(),
    };
    match event {
        Event::Start(t) => XmlEvent::Start(tag(t)),
        Event::Empty(t) => XmlEvent::Empty(tag(t)),
        Event::Text(t) => XmlEvent::Text(t.decode().map(|s| s.into_owned()).map_err(|e| e.to_string())),
        Event::End(t) => XmlEvent::End(t.name().0.to_vec()),
        Event::Eof => XmlEvent::Eof,
        _ => XmlEvent::Other,
    }
}

/// The text of bytes, with what is not UTF-8 replaced.
pub uninterp spec fn lossy(bytes: Seq<u8>) -> Seq<char>;

/// Calls `String::from_utf8_lossy`, which decodes UTF-8.
#[verifier::external_body]
fn lossy_text(bytes: &[u8]) -> (r: String)
    ensures
        r@ == lossy(bytes@),
        utf8::valid_utf8(bytes@) ==> r@ == utf8::decode_utf8(bytes@),
{
    String::from_utf8_lossy(bytes).into_owned()
}

// ---------------------------------------------------------------------------
// Entries
// ---------------------------------------------------------------------------

/// An entry of a feed.
#[derive(Debug)]
pub struct AtomEntry {
    pub id: Option<String>,
    pub title: Option<String>,
    pub author: Option<String>,
    pub body: Option<String>,
    pub link: Option<String>,
    pub updated: Option<String>,
}

/// What an [`AtomEntry`] holds.
pub struct EntryModel {
    pub id: Option<Seq<char>>,
    pub title: Option<Seq<char>>,
    pub author: Option<Seq<char>>,
    pub body: Option<Seq<char>>,
    pub link: Option<Seq<char>>,
    pub updated: Option<Seq<char>>,
}

impl View for AtomEntry {
    type V = EntryModel;

    open spec fn view(&self) -> EntryModel {
        EntryModel {
            id: text::opt(self.id),
            title: text::opt(self.title),
            author: text::opt(self.author),
            body: text::opt(self.body),
            link: text::opt(self.link),
            updated: text::opt(self.updated),
        }
    }
}

/// The subreddit in the path of a permalink.
pub open spec fn subreddit_in(url: Seq<char>) -> Option<Seq<char>> {
    match text::find(url, "/r/"@) {
        Some(i) => Some(text::before(url.skip(i + 3), '/')),
        None => None,
    }
}

/// The subreddit in the path of a permalink.
pub fn extract_subreddit(url: &str) -> (r: Option<String>)
    ensures
        text::opt(r) == subreddit_in(url@),
{
    proof {
        reveal_strlit("/r/");
    }
    let chars = text::chars_of(url);
    let total: usize = chars.len();
    match text::position(&chars, &text::chars_of("/r/")) {
        Some(i) => {
            let rest = &chars[i + 3..total];
            assert(rest@ =~= url@.skip(i + 3));
            Some(text::string_of(text::cut_before(rest, '/')))
        },
        None => None,
    }
}

impl EntryModel {
    /// An entry of which nothing is known.
    pub open spec fn none() -> EntryModel {
        EntryModel { id: None, title: None, author: None, body: None, link: None, updated: None }
    }

    /// The id, or else the link, or else nothing.
    pub open spec fn identity(self) -> Seq<char> {
        match self.id {
            Some(id) => id,
            None => match self.link {
                Some(link) => link,
                None => Seq::empty(),
            },
        }
    }

    /// The link in canonical form.
    pub open spec fn permalink(self) -> Option<Seq<char>> {
        match self.link {
            Some(link) => Some(model::canonical(link)),
            None => None,
        }
    }

    /// The post that the entry describes, the one after `before` others.
    pub open spec fn item(self, before: nat) -> ItemModel {
        ItemModel {
            index: Some(model::capped(before + 1)),
            kind: ItemKind::Post,
            id: self.identity(),
            fullname: self.identity(),
            parent_id: None,
            post_id: None,
            title: self.title,
            author: self.author,
            subreddit: match self.permalink() {
                Some(link) => subreddit_in(link),
                None => None,
            },
            body: self.body,
            flair: None,
            is_self: None,
            over_18: None,
            score: None,
            upvote_ratio: None,
            num_comments: None,
            created_utc: None,
            edited_utc: None,
            permalink: self.permalink(),
            url: self.link,
            depth: 0,
            source: ItemSource::Rss,
        }
    }
}

impl Default for AtomEntry {
    fn default() -> (r: Self)
        ensures
            r@ == EntryModel::none(),
    {
        AtomEntry { id: None, title: None, author: None, body: None, link: None, updated: None }
    }
}

impl AtomEntry {
    /// The post that the entry describes, the one after `index` others.
    pub fn to_item(&self, index: usize) -> (r: RedditItem)
        ensures
            r@ == self@.item(index as nat),
    {
        let id = match &self.id {
            Some(id) => id.clone(),
            None => match &self.link {
                Some(link) => link.clone(),
                None => String::new(),
            },
        };
        let permalink = match &self.link {
            Some(link) => Some(model::canonical_permalink(link.as_str())),
            None => None,
        };
        let subreddit = match &permalink {
            Some(link) => extract_subreddit(link.as_str()),
            None => None,
        };
        let r = RedditItem {
            index: Some(index.saturating_add(1)),
            kind: ItemKind::Post,
            id: id.clone(),
            fullname: id,
            parent_id: None,
            post_id: None,
            title: model::copy_opt(&self.title),
            author: model::copy_opt(&self.author),
            subreddit,
            body: model::copy_opt(&self.body),
            flair: None,
            is_self: None,
            over_18: None,
            score: None,
            upvote_ratio: None,
            num_comments: None,
            created_utc: None,
            edited_utc: None,
            permalink,
            url: model::copy_opt(&self.link),
            depth: 0,
            source: ItemSource::Rss,
        };
        assert(r@.id =~= self@.identity());
        r
    }
}

// ---------------------------------------------------------------------------
// Feeds
// ---------------------------------------------------------------------------

/// A feed as far as it is read.
#[derive(Debug)]
pub struct Feed {
    pub items: Vec<RedditItem>,
    pub in_entry: bool,
    pub tag: Option<String>,
    pub entry: AtomEntry,
}

/// What a [`Feed`] holds.
pub struct FeedModel {
    pub items: Seq<ItemModel>,
    pub in_entry: bool,
    pub tag: Option<Seq<char>>,
    pub entry: EntryModel,
}

impl View for Feed {
    type V = FeedModel;

    open spec fn view(&self) -> FeedModel {
        FeedModel {
            items: model::items_model(self.items@),
            in_entry: self.in_entry,
            tag: text::opt(self.tag),
            entry: self.entry@,
        }
    }
}

/// A name without its namespace.
pub open spec fn local(name: Seq<u8>) -> Seq<char> {
    text::after_last(lossy(name), ':')
}

/// A tag that holds an entry.
pub open spec fn holds_entry(name: Seq<char>) -> bool {
    name == "entry"@ || name == "item"@
}

/// The link of an entry, given what it was before some attributes.
pub open spec fn linked(
    link: Option<Seq<char>>,
    attributes: Seq<Option<(Seq<u8>, Seq<u8>)>>,
) -> Option<Seq<char>>
    decreases attributes.len(),
{
    if attributes.len() == 0 {
        link
    } else {
        match attributes.last() {
            Some(pair) => if local(pair.0) == "href"@ {
                Some(lossy(pair.1))
            } else {
                linked(link, attributes.drop_last())
            },
            None => linked(link, attributes.drop_last()),
        }
    }
}

impl FeedModel {
    /// A feed of which nothing is read.
    pub open spec fn start() -> FeedModel {
        FeedModel { items: Seq::empty(), in_entry: false, tag: None, entry: EntryModel::none() }
    }

    /// The feed after the attributes of a tag: in an entry, the last `href` of
    /// a link is the link of the entry.
    pub open spec fn with_link(self, tag: TagModel) -> FeedModel {
        if self.in_entry && local(tag.name) == "link"@ {
            FeedModel {
                entry: EntryModel {
                    link: linked(self.entry.link, tag.attributes),
                    ..self.entry
                },
                ..self
            }
        } else {
            self
        }
    }

    /// The feed after an opening tag.
    pub open spec fn opened(self, tag: TagModel) -> FeedModel {
        let name = local(tag.name);
        let next = if holds_entry(name) {
            FeedModel { in_entry: true, entry: EntryModel::none(), ..self }
        } else if self.in_entry {
            FeedModel { tag: Some(name), ..self }
        } else {
            self
        };
        next.with_link(tag)
    }

    /// The entry after character data in the current tag. The first body of
    /// an entry stays; of anything else, the last one.
    pub open spec fn told(self, data: Seq<char>) -> EntryModel {
        match self.tag {
            None => self.entry,
            Some(tag) => if tag == "title"@ {
                EntryModel { title: Some(data), ..self.entry }
            } else if tag == "id"@ || tag == "guid"@ {
                EntryModel { id: Some(data), ..self.entry }
            } else if tag == "name"@ {
                EntryModel { author: Some(data), ..self.entry }
            } else if tag == "content"@ || tag == "summary"@ || tag == "description"@ {
                if self.entry.body is None {
                    EntryModel { body: Some(data), ..self.entry }
                } else {
                    self.entry
                }
            } else if tag == "updated"@ || tag == "published"@ || tag == "pubDate"@ {
                EntryModel { updated: Some(data), ..self.entry }
            } else {
                self.entry
            },
        }
    }

    /// The feed after a closing tag.
    pub open spec fn closed(self, name: Seq<u8>) -> FeedModel {
        if holds_entry(local(name)) {
            FeedModel {
                items: self.items.push(self.entry.item(self.items.len())),
                in_entry: false,
                tag: None,
                entry: EntryModel::none(),
            }
        } else {
            FeedModel { tag: None, ..self }
        }
    }

    /// The feed after an event. Character data in an entry may be unreadable.
    pub open spec fn after(self, event: EventModel) -> Result<FeedModel, ErrorModel> {
        match event {
            EventModel::Start(tag) => Ok(self.opened(tag)),
            EventModel::Empty(tag) => Ok(self.with_link(tag)),
            EventModel::Text(data) => if self.in_entry {
                match data {
                    Ok(s) => Ok(FeedModel { entry: self.told(s), ..self }),
                    Err(words) => Err(ErrorModel::Message(words)),
                }
            } else {
                Ok(self)
            },
            EventModel::End(name) => Ok(self.closed(name)),
            EventModel::Eof => Ok(self),
            EventModel::Other => Ok(self),
        }
    }
}

/// The items of a feed, given what is read so far and what comes.
pub open spec fn feed_items(
    feed: FeedModel,
    events: Seq<Result<EventModel, Seq<char>>>,
) -> Result<Seq<ItemModel>, ErrorModel>
    decreases events.len(),
{
    if events.len() == 0 {
        Ok(feed.items)
    } else {
        match events[0] {
            Err(words) => Err(ErrorModel::Message(words)),
            Ok(event) => if event is Eof {
                Ok(feed.items)
            } else {
                match feed.after(event) {
                    Ok(next) => feed_items(next, events.skip(1)),
                    Err(e) => Err(e),
                }
            },
        }
    }
}

/// The items of a feed are posts, numbered from one, of which the feed tells
/// neither score nor place in a thread.
pub open spec fn from_feed(items: Seq<ItemModel>) -> bool {
    forall|i: int| 0 <= i < items.len() ==> {
        let item = #[trigger] items[i];
        &&& item.index == Some(model::capped((i + 1) as nat))
        &&& item.kind == ItemKind::Post
        &&& item.source == ItemSource::Rss
        &&& item.score is None
        &&& item.num_comments is None
        &&& item.parent_id is None
    }
}

/// Reading on keeps what holds of the items of a feed.
pub proof fn law_items_of_a_feed(feed: FeedModel, events: Seq<Result<EventModel, Seq<char>>>)
    requires
        from_feed(feed.items),
    ensures
        feed_items(feed, events) is Ok ==> from_feed(feed_items(feed, events)->Ok_0),
    decreases events.len(),
{
    if events.len() > 0 && events[0] is Ok && !(events[0]->Ok_0 is Eof) {
        let next = feed.after(events[0]->Ok_0);
        if next is Ok {
            law_items_of_a_feed(next->Ok_0, events.skip(1));
        }
    }
}

/// The outcome of reading items.
pub open spec fn items_outcome(r: Result<Vec<RedditItem>, RdtError>) -> Result<
    Seq<ItemModel>,
    ErrorModel,
> {
    match r {
        Ok(items) => Ok(model::items_model(items@)),
        Err(e) => Err(e@),
    }
}

/// A name without its namespace.
pub fn local_name(name: &[u8]) -> (r: String)
    ensures
        r@ == local(name@),
        utf8::valid_utf8(name@) ==> r@ == text::after_last(utf8::decode_utf8(name@), ':'),
{
    let raw = lossy_text(name);
    text::string_of(text::cut_after_last(&text::chars_of(raw.as_str()), ':'))
}

fn is_entry(name: &str) -> (r: bool)
    ensures
        r == holds_entry(name@),
{
    text::same_text(name, "entry") || text::same_text(name, "item")
}

fn link_of(link: Option<String>, attributes: &[Option<(Vec<u8>, Vec<u8>)>]) -> (r: Option<String>)
    ensures
        text::opt(r) == linked(
            text::opt(link),
            Seq::new(attributes@.len(), |i: int| attribute_model(attributes@[i])),
        ),
{
    let ghost all = Seq::new(attributes@.len(), |i: int| attribute_model(attributes@[i]));
    let ghost start = text::opt(link);
    let mut out = link;
    let mut i: usize = 0;
    assert(all.take(0) =~= Seq::empty());
    while i < attributes.len()
        invariant
            i <= attributes@.len(),
            all == Seq::new(attributes@.len(), |i: int| attribute_model(attributes@[i])),
            text::opt(out) == linked(start, all.take(i as int)),
        decreases attributes@.len() - i,
    {
        let ghost t = all.take(i + 1);
        proof {
            assert(t.drop_last() =~= all.take(i as int));
            assert(t.last() == attribute_model(attributes@[i as int]));
        }
        match &attributes[i] {
            Some(pair) => {
                if text::same_text(local_name(&pair.0).as_str(), "href") {
                    out = Some(lossy_text(&pair.1));
                }
            },
            None => {},
        }
        i = i + 1;
    }
    assert(all.take(all.len() as int) =~= all);
    out
}

impl Feed {
    /// A feed of which nothing is read.
    pub fn new() -> (r: Feed)
        ensures
            r@ == FeedModel::start(),
    {
        let r = Feed {
            items: Vec::new(),
            in_entry: false,
            tag: None,
            entry: AtomEntry::default(),
        };
        assert(r@.items =~= Seq::empty());
        r
    }

    fn take_link(&mut self, tag: &Tag)
        ensures
            final(self)@ == old(self)@.with_link(tag@),
    {
        if self.in_entry && text::same_text(local_name(&tag.name).as_str(), "link") {
            let mut link: Option<String> = None;
            std::mem::swap(&mut link, &mut self.entry.link);
            self.entry.link = link_of(link, &tag.attributes);
        }
    }

    fn take_start(&mut self, tag: &Tag)
        ensures
            final(self)@ == old(self)@.opened(tag@),
    {
        let name = local_name(&tag.name);
        if is_entry(name.as_str()) {
            self.in_entry = true;
            self.entry = AtomEntry::default();
        } else if self.in_entry {
            self.tag = Some(name);
        }
        self.take_link(tag);
    }

    fn take_text(&mut self, data: String)
        ensures
            final(self)@ == (FeedModel { entry: old(self)@.told(data@), ..old(self)@ }),
    {
        match &self.tag {
            None => {},
            Some(tag) => {
                let t = tag.as_str();
                if text::same_text(t, "title") {
                    self.entry.title = Some(data);
                } else if text::same_text(t, "id") || text::same_text(t, "guid") {
                    self.entry.id = Some(data);
                } else if text::same_text(t, "name") {
                    self.entry.author = Some(data);
                } else if text::same_text(t, "content") || text::same_text(t, "summary")
                    || text::same_text(t, "description") {
                    if self.entry.body.is_none() {
                        self.entry.body = Some(data);
                    }
                } else if text::same_text(t, "updated") || text::same_text(t, "published")
                    || text::same_text(t, "pubDate") {
                    self.entry.updated = Some(data);
                }
            },
        }
    }

    fn take_end(&mut self, name: &[u8])
        ensures
            final(self)@ == old(self)@.closed(name@),
    {
        if is_entry(local_name(name).as_str()) {
            let ghost had = self@.items;
            let item = self.entry.to_item(self.items.len());
            let ghost one = item@;
            self.in_entry = false;
            self.items.push(item);
            self.entry = AtomEntry::default();
            assert(self@.items =~= had.push(one));
        }
        self.tag = None;
    }

    /// Reads one event.
    pub fn take(&mut self, event: XmlEvent) -> (r: Result<(), RdtError>)
        ensures
            match r {
                Ok(_) => old(self)@.after(event@) == Ok::<FeedModel, ErrorModel>(final(self)@),
                Err(e) => old(self)@.after(event@) == Err::<FeedModel, ErrorModel>(e@),
            },
    {
        match event {
            XmlEvent::Start(tag) => {
                self.take_start(&tag);
                Ok(())
            },
            XmlEvent::Empty(tag) => {
                self.take_link(&tag);
                Ok(())
            },
            XmlEvent::Text(data) => {
                if self.in_entry {
                    match data {
                        Ok(s) => {
                            self.take_text(s);
                            Ok(())
                        },
                        Err(words) => Err(RdtError::Message(words)),
                    }
                } else {
                    Ok(())
                }
            },
            XmlEvent::End(name) => {
                self.take_end(&name);
                Ok(())
            },
            XmlEvent::Eof => Ok(()),
            XmlEvent::Other => Ok(()),
        }
    }
}

/// Reads the entries of an Atom or RSS feed as posts.
pub fn parse_atom_entries(xml: &str) -> (r: Result<Vec<RedditItem>, RdtError>)
    ensures
        items_outcome(r) == feed_items(FeedModel::start(), met_in(xml@)),
{
    let mut reader = open_feed(xml);
    let mut feed = Feed::new();
    loop
        invariant
            finished(coming(reader)),
            feed_items(FeedModel::start(), met_in(xml@)) == feed_items(feed@, coming(reader)),
        decreases coming(reader).len(),
    {
        let ghost had = coming(reader);
        let event = match read_event(&mut reader) {
            Ok(event) => open_event(&event),
            Err(words) => {
                return Err(RdtError::Message(words));
            },
        };
        if matches!(event, XmlEvent::Eof) {
            return Ok(feed.items);
        }
        assert(had.len() > 1);
        assert forall|i: int| 0 <= i < had.len() - 1 implies had.skip(1)[i] == had[i + 1] by {}
        match feed.take(event) {
            Ok(_) => {},
            Err(e) => {
                return Err(e);
            },
        }
    }
}

/// Attributes without an `href` tell no link.
proof fn lemma_no_link(
    link: Option<Seq<char>>,
    attributes: Seq<Option<(Seq<u8>, Seq<u8>)>>,
)
    requires
        forall|i: int| #![trigger attributes[i]]
            0 <= i < attributes.len() ==> (attributes[i] matches Some(pair) ==> local(pair.0)
                != "href"@),
    ensures
        linked(link, attributes) == link,
    decreases attributes.len(),
{
    if attributes.len() > 0 {
        let front = attributes.drop_last();
        assert forall|i: int| #![trigger front[i]] 0 <= i < front.len() implies (
        front[i] matches Some(pair) ==> local(pair.0) != "href"@) by {
            assert(front[i] == attributes[i]);
        }
        lemma_no_link(link, front);
        assert(attributes[attributes.len() - 1] == attributes.last());
    }
}

/// The tags whose character data an entry keeps are told apart by their names.
proof fn lemma_tags_differ()
    ensures
        "title"@ != "id"@ && "title"@ != "guid"@ && "title"@ != "name"@ && "title"@ != "content"@
            && "title"@ != "summary"@ && "title"@ != "description"@ && "title"@ != "updated"@
            && "title"@ != "published"@ && "title"@ != "pubDate"@,
        "name"@ != "id"@ && "name"@ != "guid"@ && "name"@ != "content"@ && "name"@ != "summary"@
            && "name"@ != "description"@ && "name"@ != "updated"@ && "name"@ != "published"@
            && "name"@ != "pubDate"@,
        "id"@ != "content"@ && "id"@ != "summary"@ && "id"@ != "description"@ && "id"@
            != "updated"@ && "id"@ != "published"@ && "id"@ != "pubDate"@,
        "guid"@ != "content"@ && "guid"@ != "summary"@ && "guid"@ != "description"@ && "guid"@
            != "updated"@ && "guid"@ != "published"@ && "guid"@ != "pubDate"@,
        "content"@ != "updated"@ && "content"@ != "published"@ && "content"@ != "pubDate"@,
        "summary"@ != "updated"@ && "summary"@ != "published"@ && "summary"@ != "pubDate"@,
        "description"@ != "updated"@ && "description"@ != "published"@ && "description"@
            != "pubDate"@,
{
    reveal_strlit("title");
    reveal_strlit("id");
    reveal_strlit("guid");
    reveal_strlit("name");
    reveal_strlit("content");
    reveal_strlit("summary");
    reveal_strlit("description");
    reveal_strlit("updated");
    reveal_strlit("published");
    reveal_strlit("pubDate");
    assert("title"@[0] == 't' && "id"@[0] == 'i' && "guid"@[0] == 'g' && "name"@[0] == 'n');
    assert("content"@[0] == 'c' && "summary"@[0] == 's' && "description"@[0] == 'd');
    assert("updated"@[0] == 'u' && "published"@[0] == 'p' && "pubDate"@[0] == 'p');
}

/// The feed after a tag with character data in it, which is opened and closed.
pub open spec fn after_element(
    feed: FeedModel,
    tag: TagModel,
    data: Seq<char>,
    end: Seq<u8>,
) -> Option<FeedModel> {
    match feed.after(EventModel::Start(tag)) {
        Ok(a) => match a.after(EventModel::Text(Ok(data))) {
            Ok(b) => match b.after(EventModel::End(end)) {
                Ok(c) => Some(c),
                Err(_) => None,
            },
            Err(_) => None,
        },
        Err(_) => None,
    }
}

/// What a tag in an entry holds is what the entry tells: its title, its id, its
/// author, its body and when it was updated. The first body stays, and of
/// anything else the last. Any other tag tells nothing, and no tag tells anything
/// outside an entry.
pub proof fn law_entries_tell_what_their_tags_hold(
    feed: FeedModel,
    tag: TagModel,
    data: Seq<char>,
    end: Seq<u8>,
)
    requires
        local(end) == local(tag.name),
        local(tag.name) != "entry"@,
        local(tag.name) != "item"@,
        local(tag.name) != "link"@,
    ensures
        ({
            let name = local(tag.name);
            let was = feed.entry;
            &&& after_element(feed, tag, data, end) matches Some(next)
            &&& next.items == feed.items
            &&& next.in_entry == feed.in_entry
            &&& next.tag is None
            &&& !feed.in_entry ==> next.entry == was
            &&& feed.in_entry ==> {
                &&& name == "title"@ ==> next.entry == (EntryModel { title: Some(data), ..was })
                &&& name == "id"@ || name == "guid"@ ==> next.entry == (EntryModel {
                    id: Some(data),
                    ..was
                })
                &&& name == "name"@ ==> next.entry == (EntryModel { author: Some(data), ..was })
                &&& name == "content"@ || name == "summary"@ || name == "description"@ ==> (
                was.body is None ==> next.entry == (EntryModel { body: Some(data), ..was })) && (
                was.body is Some ==> next.entry == was)
                &&& name == "updated"@ || name == "published"@ || name == "pubDate"@ ==> next.entry
                    == (EntryModel { updated: Some(data), ..was })
                &&& name != "title"@ && name != "id"@ && name != "guid"@ && name != "name"@ && name
                    != "content"@ && name != "summary"@ && name != "description"@ && name
                    != "updated"@ && name != "published"@ && name != "pubDate"@ ==> next.entry
                    == was
            }
        }),
{
    lemma_tags_differ();
}

/// An entry begins with nothing told. Where it ends, it is the next item of the
/// feed, and the items before it stay. A link in it is the last `href` that the
/// tag tells.
pub proof fn law_entries_become_items(feed: FeedModel, tag: TagModel, end: Seq<u8>)
    ensures
        local(tag.name) == "entry"@ || local(tag.name) == "item"@ ==> {
            &&& feed.after(EventModel::Start(tag)) matches Ok(next)
            &&& next.in_entry
            &&& next.items == feed.items
            &&& next.entry == (EntryModel {
                id: None,
                title: None,
                author: None,
                body: None,
                link: None,
                updated: None,
            })
        },
        local(end) == "entry"@ || local(end) == "item"@ ==> {
            &&& feed.after(EventModel::End(end)) matches Ok(next)
            &&& !next.in_entry
            &&& next.tag is None
            &&& next.items.len() == feed.items.len() + 1
            &&& next.items.drop_last() == feed.items
            &&& next.items.last() == feed.entry.item(feed.items.len())
        },
        local(end) != "entry"@ && local(end) != "item"@ ==> {
            &&& feed.after(EventModel::End(end)) matches Ok(next)
            &&& next.items == feed.items
            &&& next.entry == feed.entry
            &&& next.in_entry == feed.in_entry
            &&& next.tag is None
        },
        feed.in_entry && local(tag.name) == "link"@ ==> forall|url: Seq<u8>, key: Seq<u8>|
            #![trigger local(key), lossy(url)]
            tag.attributes.len() > 0 && tag.attributes.last() == Some((key, url)) && local(key)
                == "href"@ ==> {
                &&& feed.after(EventModel::Empty(tag)) matches Ok(next)
                &&& next.entry == (EntryModel { link: Some(lossy(url)), ..feed.entry })
                &&& next.items == feed.items
            },
        feed.in_entry && local(tag.name) == "link"@ && (forall|i: int| #![trigger tag.attributes[i]]
            0 <= i < tag.attributes.len() ==> (tag.attributes[i] matches Some(pair) ==> local(
                pair.0,
            ) != "href"@)) ==> feed.after(EventModel::Empty(tag)) == Ok::<FeedModel, ErrorModel>(
            feed,
        ),
        feed.in_entry && local(tag.name) == "link"@ ==> (feed.after(
            EventModel::Start(tag),
        ) matches Ok(opened) && feed.after(EventModel::Empty(tag)) matches Ok(closed)
            && opened.entry == closed.entry && opened.items == feed.items),
        !feed.in_entry || local(tag.name) != "link"@ ==> feed.after(EventModel::Empty(tag))
            == Ok::<FeedModel, ErrorModel>(feed),
{
    reveal_strlit("entry");
    reveal_strlit("item");
    reveal_strlit("link");
    assert("entry"@[0] == 'e' && "item"@[0] == 'i' && "link"@[0] == 'l');
    if forall|i: int| #![trigger tag.attributes[i]]
        0 <= i < tag.attributes.len() ==> (tag.attributes[i] matches Some(pair) ==> local(pair.0)
            != "href"@) {
        lemma_no_link(feed.entry.link, tag.attributes);
    }
    if let Ok(next) = feed.after(EventModel::End(end)) {
        if local(end) == "entry"@ || local(end) == "item"@ {
            assert(next.items.drop_last() =~= feed.items);
        }
    }
}

/// An item of a feed has the title, author, body and link that its entry told,
/// is named by the id of the entry, or by its link where it has none, and is of
/// the subreddit that stands in the link.
pub proof fn law_items_have_what_the_entry_told(entry: EntryModel, before: nat)
    requires
        before < usize::MAX,
    ensures
        ({
            let item = entry.item(before);
            &&& item.index == Some((before + 1) as usize)
            &&& item.kind == ItemKind::Post
            &&& item.source == ItemSource::Rss
            &&& item.title == entry.title
            &&& item.author == entry.author
            &&& item.body == entry.body
            &&& item.url == entry.link
            &&& entry.link matches Some(link) ==> item.permalink == Some(model::canonical(link))
                && item.subreddit == subreddit_in(model::canonical(link))
            &&& entry.link is None ==> item.permalink is None && item.subreddit is None
            &&& entry.id matches Some(id) ==> item.id == id
            &&& entry.id is None ==> (entry.link matches Some(link) ==> item.id == link)
            &&& entry.id is None && entry.link is None ==> item.id.len() == 0
            &&& item.fullname == item.id
            &&& item.score is None && item.num_comments is None && item.upvote_ratio is None
            &&& item.created_utc is None && item.edited_utc is None
            &&& item.parent_id is None && item.post_id is None
            &&& item.flair is None && item.is_self is None && item.over_18 is None
            &&& item.depth == 0
        }),
{
}

/// The subreddit of a link is what stands between `/r/` and the next slash.
pub proof fn law_links_name_their_subreddit(
    host: Seq<char>,
    name: Seq<char>,
    rest: Seq<char>,
)
    requires
        text::free_of(name, '/'),
        text::first_at(host + "/r/"@ + (name + seq!['/'] + rest), "/r/"@, host.len() as int),
    ensures
        subreddit_in(host + "/r/"@ + (name + seq!['/'] + rest)) == Some(name),
{
    reveal_strlit("/r/");
    let tail = name + seq!['/'] + rest;
    let url = host + "/r/"@ + tail;
    text::lemma_find_is(url, "/r/"@, host.len() as int);
    assert(url.skip(host.len() as int + 3) =~= tail);
    text::law_texts_end_before_the_character(name, '/', rest);
}

/// The ends of entries among some events.
pub open spec fn entries_ended(events: Seq<Result<EventModel, Seq<char>>>) -> nat
    decreases events.len(),
{
    if events.len() == 0 {
        0
    } else {
        entries_ended(events.skip(1)) + match events[0] {
            Ok(EventModel::End(name)) => if local(name) == "entry"@ || local(name) == "item"@ {
                1nat
            } else {
                0nat
            },
            _ => 0nat,
        }
    }
}

/// A feed that is read has one more item for each entry that ends in it, behind
/// those that were there.
pub proof fn law_every_entry_is_an_item(
    feed: FeedModel,
    events: Seq<Result<EventModel, Seq<char>>>,
)
    requires
        finished(events),
    ensures
        feed_items(feed, events) matches Ok(items) ==> items.len() == feed.items.len()
            + entries_ended(events) && feed.items.is_prefix_of(items),
        events.last() is Err ==> feed_items(feed, events) is Err,
    decreases events.len(),
{
    let rest = events.skip(1);
    assert(feed.items.subrange(0, feed.items.len() as int) =~= feed.items);
    if events.len() == 1 {
        assert(events.last() == events[0]);
        assert(entries_ended(rest) == 0);
    } else {
        assert(events[0] is Ok && !(events[0]->Ok_0 is Eof));
        assert(finished(rest)) by {
            assert forall|i: int| 0 <= i < rest.len() implies (i == rest.len() - 1 <==> match
            #[trigger] rest[i] {
                Ok(event) => event is Eof,
                Err(_) => true,
            }) by {
                assert(rest[i] == events[i + 1]);
            }
        }
        assert(rest.last() == events.last());
        if let Ok(next) = feed.after(events[0]->Ok_0) {
            law_every_entry_is_an_item(next, rest);
            if let Ok(items) = feed_items(next, rest) {
                assert(next.items.is_prefix_of(items));
                assert(feed.items.is_prefix_of(next.items)) by {
                    assert(next.items.subrange(0, feed.items.len() as int) =~= feed.items);
                }
                assert(items.subrange(0, feed.items.len() as int) =~= feed.items) by {
                    assert(items.subrange(0, next.items.len() as int) == next.items);
                    assert(next.items.subrange(0, feed.items.len() as int) == feed.items);
                    assert forall|i: int| 0 <= i < feed.items.len() implies items[i]
                        == feed.items[i] by {
                        assert(items.subrange(0, next.items.len() as int)[i] == items[i]);
                        assert(next.items.subrange(0, feed.items.len() as int)[i]
                            == next.items[i]);
                    }
                }
            }
        }
    }
}

} // verus!
