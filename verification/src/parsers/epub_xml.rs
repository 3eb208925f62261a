//! What an EPUB reader reads from the XML documents of a package: the
//! rootfile path of `container.xml`, the metadata, spine and manifest of the
//! package document, and the body text of a content document.

use vstd::prelude::*;
use vstd::string::StringExecFns;
use crate::parsers::xml_events::{
    attrs_view, events_view, is_named, parse_xml_events, xml_events_of, XmlAttribute, XmlEvent,
    XmlEventView,
};

verus! {

/// Errors of the EPUB reader, with their messages.
#[derive(Debug)]
pub enum EpubError {
    /// A file or directory that the reader needs is not there.
    NotFound(String),
    Other(String),
}

impl EpubError {
    pub open spec fn spec_message(&self) -> Seq<char> {
        match self {
            EpubError::NotFound(m) => m@,
            EpubError::Other(m) => m@,
        }
    }

    pub fn message(&self) -> (s: String)
        ensures
            s@ == self.spec_message(),
    {
        match self {
            EpubError::NotFound(m) => m.clone(),
            EpubError::Other(m) => m.clone(),
        }
    }
}

/// `r` is an [`EpubError::Other`] with message `msg`.
pub open spec fn other_error<T>(r: Result<T, EpubError>, msg: Seq<char>) -> bool {
    r matches Err(e) && e is Other && e.spec_message() == msg
}

/// `r` is an [`EpubError::NotFound`] with message `msg`.
pub open spec fn not_found_error<T>(r: Result<T, EpubError>, msg: Seq<char>) -> bool {
    r matches Err(e) && e is NotFound && e.spec_message() == msg
}

/// The value of the first attribute named `name`.
pub open spec fn find_attr(attrs: Seq<(Seq<char>, Seq<char>)>, name: Seq<char>) -> Option<
    Seq<char>,
>
    decreases attrs.len(),
{
    if attrs.len() == 0 {
        None
    } else if attrs[0].0 == name {
        Some(attrs[0].1)
    } else {
        find_attr(attrs.drop_first(), name)
    }
}

/// Some attribute, whatever its name, has the value `value`.
pub open spec fn has_attr_value(attrs: Seq<(Seq<char>, Seq<char>)>, value: Seq<char>) -> bool {
    exists|i: int| 0 <= i < attrs.len() && #[trigger] attrs[i].1 == value
}

proof fn lemma_find_attr_skip(attrs: Seq<(Seq<char>, Seq<char>)>, name: Seq<char>, i: int)
    requires
        0 <= i <= attrs.len(),
        forall|j: int| 0 <= j < i ==> #[trigger] attrs[j].0 != name,
    ensures
        find_attr(attrs, name) == find_attr(attrs.skip(i), name),
    decreases i,
{
    if i > 0 {
        lemma_find_attr_skip(attrs, name, i - 1);
        let s = attrs.skip(i - 1);
        assert(s.drop_first() =~= attrs.skip(i));
        assert(s[0] == attrs[i - 1]);
    } else {
        assert(attrs.skip(0) =~= attrs);
    }
}

/// The value of the first attribute named `attr_name`, or `None`.
pub fn find_attr_value(attributes: &Vec<XmlAttribute>, attr_name: &str) -> (r: Option<String>)
    ensures
        match r {
            Some(v) => find_attr(attrs_view(attributes@), attr_name@) == Some(v@),
            None => find_attr(attrs_view(attributes@), attr_name@) is None,
        },
{
    let ghost attrs = attrs_view(attributes@);
    for i in 0..attributes.len()
        invariant
            attrs == attrs_view(attributes@),
            forall|j: int| 0 <= j < i ==> #[trigger] attrs[j].0 != attr_name@,
    {
        proof {
            assert(attrs[i as int] == attributes@[i as int]@);
        }
        if is_named(attributes[i].get_name(), attr_name) {
            proof {
                lemma_find_attr_skip(attrs, attr_name@, i as int);
                assert(attrs.skip(i as int)[0] == attrs[i as int]);
            }
            return Some(attributes[i].get_value().clone());
        }
    }
    proof {
        lemma_find_attr_skip(attrs, attr_name@, attributes.len() as int);
    }
    None
}

/// The value of the first attribute named `attr_name`; an error naming the
/// attribute when there is none. Names match exactly, case included.
pub fn extract_attr_value_from_attrs(attributes: &Vec<XmlAttribute>, attr_name: &str) -> (r: Result<
    String,
    EpubError,
>)
    ensures
        match r {
            Ok(v) => find_attr(attrs_view(attributes@), attr_name@) == Some(v@),
            Err(e) => find_attr(attrs_view(attributes@), attr_name@) is None && e is Other
                && e.spec_message() == "extract_attr_value_from_attrs: Not found attribute: "@
                + attr_name@,
        },
{
    match find_attr_value(attributes, attr_name) {
        Some(v) => Ok(v),
        None => {
            let mut m = String::from_str("extract_attr_value_from_attrs: Not found attribute: ");
            m.append(attr_name);
            Err(EpubError::Other(m))
        },
    }
}

fn has_value(attributes: &Vec<XmlAttribute>, value: &str) -> (b: bool)
    ensures
        b == has_attr_value(attrs_view(attributes@), value@),
{
    let ghost attrs = attrs_view(attributes@);
    for i in 0..attributes.len()
        invariant
            attrs == attrs_view(attributes@),
            forall|j: int| 0 <= j < i ==> #[trigger] attrs[j].1 != value@,
    {
        proof {
            assert(attrs[i as int] == attributes@[i as int]@);
        }
        if is_named(attributes[i].get_value(), value) {
            return true;
        }
    }
    false
}

/// The `full-path` of the first `rootfile` element of a container
/// document; `None` when that element has none, or when the document ends
/// or fails before any `rootfile`.
pub open spec fn full_path_of(events: Seq<XmlEventView>) -> Option<Seq<char>>
    decreases events.len(),
{
    if events.len() == 0 {
        None
    } else {
        match events[0] {
            XmlEventView::StartElement(n, attrs) => if n == "rootfile"@ {
                find_attr(attrs, "full-path"@)
            } else {
                full_path_of(events.drop_first())
            },
            XmlEventView::EndDocument => None,
            XmlEventView::Error => None,
            _ => full_path_of(events.drop_first()),
        }
    }
}

/// The rootfile path that the events of a container document declare (see
/// [`full_path_of`]).
pub fn full_path_in_events(events: &Vec<XmlEvent>) -> (r: Option<String>)
    ensures
        match r {
            Some(p) => full_path_of(events_view(events@)) == Some(p@),
            None => full_path_of(events_view(events@)) is None,
        },
{
    let ghost evs = events_view(events@);
    let mut i: usize = 0;
    proof {
        assert(evs.skip(0) =~= evs);
    }
    while i < events.len()
        invariant
            evs == events_view(events@),
            i <= events.len(),
            full_path_of(evs) == full_path_of(evs.skip(i as int)),
        decreases events.len() - i,
    {
        proof {
            assert(evs.skip(i as int)[0] == events@[i as int]@);
            assert(evs.skip(i as int).drop_first() =~= evs.skip(i + 1));
        }
        match &events[i] {
            XmlEvent::StartElement { name, attributes } => {
                if is_named(name, "rootfile") {
                    return find_attr_value(attributes, "full-path");
                }
            },
            XmlEvent::EndDocument => {
                return None;
            },
            XmlEvent::Error => {
                return None;
            },
            _ => {},
        }
        i = i + 1;
    }
    None
}

/// The rootfile path that `container.xml` declares (see [`full_path_of`]).
pub fn extract_full_path(container_xml: &[u8]) -> (r: Option<String>)
    ensures
        match r {
            Some(p) => full_path_of(xml_events_of(container_xml@)) == Some(p@),
            None => full_path_of(xml_events_of(container_xml@)) is None,
        },
{
    let events = parse_xml_events(container_xml);
    full_path_in_events(&events)
}

/// The text of `s`, if any.
pub open spec fn str_opt(s: Option<&str>) -> Option<Seq<char>> {
    match s {
        Some(t) => Some(t@),
        None => None,
    }
}

/// An element passes the attribute test: with both a name and a value
/// given, some attribute has that name and that value; otherwise any
/// element passes.
pub open spec fn passes_attr_test(
    attrs: Seq<(Seq<char>, Seq<char>)>,
    attr_name: Option<Seq<char>>,
    attr_value: Option<Seq<char>>,
) -> bool {
    match (attr_name, attr_value) {
        (Some(n), Some(v)) => exists|i: int| 0 <= i < attrs.len() && #[trigger] attrs[i] == (n, v),
        _ => true,
    }
}

/// The text right after the first `tag` element inside `metadata` that
/// passes the attribute test, reading `events` from the start (`inside`
/// says whether a `metadata` element has begun). The search ends at the end
/// of `metadata` or at a parser error; an element that passes but is not
/// followed by text gives up the event after it, which is not looked at.
pub open spec fn metadata_value(
    events: Seq<XmlEventView>,
    inside: bool,
    tag: Seq<char>,
    attr_name: Option<Seq<char>>,
    attr_value: Option<Seq<char>>,
) -> Option<Seq<char>>
    decreases events.len(),
{
    if events.len() == 0 {
        None
    } else {
        match events[0] {
            XmlEventView::StartElement(n, attrs) => if n == "metadata"@ {
                metadata_value(events.drop_first(), true, tag, attr_name, attr_value)
            } else if inside && n == tag && passes_attr_test(attrs, attr_name, attr_value) {
                if events.len() < 2 {
                    None
                } else {
                    match events[1] {
                        XmlEventView::Characters(t) => Some(t),
                        XmlEventView::Error => None,
                        _ => metadata_value(events.skip(2), inside, tag, attr_name, attr_value),
                    }
                }
            } else {
                metadata_value(events.drop_first(), inside, tag, attr_name, attr_value)
            },
            XmlEventView::EndElement(n) => if n == "metadata"@ {
                None
            } else {
                metadata_value(events.drop_first(), inside, tag, attr_name, attr_value)
            },
            XmlEventView::Error => None,
            _ => metadata_value(events.drop_first(), inside, tag, attr_name, attr_value),
        }
    }
}

fn has_attr_pair(attributes: &Vec<XmlAttribute>, name: &str, value: &str) -> (b: bool)
    ensures
        b == passes_attr_test(attrs_view(attributes@), Some(name@), Some(value@)),
{
    let ghost attrs = attrs_view(attributes@);
    for i in 0..attributes.len()
        invariant
            attrs == attrs_view(attributes@),
            forall|j: int| 0 <= j < i ==> #[trigger] attrs[j] != (name@, value@),
    {
        proof {
            assert(attrs[i as int] == attributes@[i as int]@);
        }
        if is_named(attributes[i].get_name(), name) && is_named(attributes[i].get_value(), value) {
            return true;
        }
    }
    false
}

/// [`metadata_value`] over the events of a package document.
pub fn metadata_value_in_events(
    events: &Vec<XmlEvent>,
    tag_name: &str,
    attr_name: Option<&str>,
    attr_value: Option<&str>,
) -> (r: Option<String>)
    ensures
        match r {
            Some(t) => metadata_value(events_view(events@), false, tag_name@, str_opt(attr_name), str_opt(attr_value)) == Some(t@),
            None => metadata_value(events_view(events@), false, tag_name@, str_opt(attr_name), str_opt(attr_value)) is None,
        },
{
    let ghost evs = events_view(events@);
    let ghost an = str_opt(attr_name);
    let ghost av = str_opt(attr_value);
    let mut inside = false;
    let mut i: usize = 0;
    proof {
        assert(evs.skip(0) =~= evs);
    }
    while i < events.len()
        invariant
            evs == events_view(events@),
            an == str_opt(attr_name),
            av == str_opt(attr_value),
            i <= events.len(),
            metadata_value(evs, false, tag_name@, an, av) == metadata_value(evs.skip(i as int), inside, tag_name@, an, av),
        decreases events.len() - i,
    {
        let ghost rest = evs.skip(i as int);
        proof {
            assert(rest[0] == events@[i as int]@);
            assert(rest.drop_first() =~= evs.skip(i + 1));
        }
        match &events[i] {
            XmlEvent::StartElement { name, attributes } => {
                if is_named(name, "metadata") {
                    inside = true;
                } else if inside && is_named(name, tag_name) {
                    let passes = match (attr_name, attr_value) {
                        (Some(n), Some(v)) => has_attr_pair(attributes, n, v),
                        _ => true,
                    };
                    if passes {
                        if i + 1 >= events.len() {
                            return None;
                        }
                        proof {
                            assert(rest[1] == events@[i + 1]@);
                        }
                        match &events[i + 1] {
                            XmlEvent::Characters(t) => {
                                return Some(t.clone());
                            },
                            XmlEvent::Error => {
                                return None;
                            },
                            _ => {
                                proof {
                                    assert(rest.skip(2) =~= evs.skip(i + 2));
                                }
                                i = i + 2;
                                continue;
                            },
                        }
                    }
                }
            },
            XmlEvent::EndElement { name } => {
                if is_named(name, "metadata") {
                    return None;
                }
            },
            XmlEvent::Error => {
                return None;
            },
            _ => {},
        }
        i = i + 1;
    }
    None
}

/// The text of the first `tag_name` element inside the `metadata` of a
/// package document, optionally only among elements with the attribute
/// `attr_name` = `attr_value` (see [`metadata_value`]).
pub fn extract_metadata_value(
    package_xml: &[u8],
    tag_name: &str,
    attr_name: Option<&str>,
    attr_value: Option<&str>,
) -> (r: Option<String>)
    ensures
        match r {
            Some(t) => metadata_value(xml_events_of(package_xml@), false, tag_name@, str_opt(attr_name), str_opt(attr_value)) == Some(t@),
            None => metadata_value(xml_events_of(package_xml@), false, tag_name@, str_opt(attr_name), str_opt(attr_value)) is None,
        },
{
    let events = parse_xml_events(package_xml);
    metadata_value_in_events(&events, tag_name, attr_name, attr_value)
}

/// Which metadata field the next text event fills.
#[derive(Debug, Clone, Copy, PartialEq, Eq, Structural)]
pub enum Pending {
    Nothing,
    Title,
    Description,
    Creator,
    Subject,
    Publisher,
    Isbn,
    Rights,
}

/// State of reading the metadata of a package document.
pub struct MetaScan {
    pub title: Seq<char>,
    pub author: Seq<char>,
    pub description: Seq<char>,
    pub series: Seq<char>,
    pub series_indexes: Seq<Seq<char>>,
    pub subjects: Seq<Seq<char>>,
    pub isbn: Seq<char>,
    pub publisher: Seq<char>,
    pub rights: Seq<char>,
    pub inside: bool,
    pub pending: Pending,
    pub stopped: bool,
}

pub open spec fn meta_start() -> MetaScan {
    MetaScan {
        title: "Unknown Title"@,
        author: "Unknown author"@,
        description: "N/A"@,
        series: "N/A"@,
        series_indexes: Seq::empty(),
        subjects: Seq::empty(),
        isbn: "N/A"@,
        publisher: "N/A"@,
        rights: "N/A"@,
        inside: false,
        pending: Pending::Nothing,
        stopped: false,
    }
}

/// `st` with the field that `st.pending` names set to `text`.
pub open spec fn meta_fill(st: MetaScan, text: Seq<char>) -> MetaScan {
    let cleared = MetaScan { pending: Pending::Nothing, ..st };
    match st.pending {
        Pending::Title => MetaScan { title: text, ..cleared },
        Pending::Description => MetaScan { description: text, ..cleared },
        Pending::Creator => MetaScan { author: text, ..cleared },
        Pending::Subject => MetaScan { subjects: st.subjects.push(text), ..cleared },
        Pending::Publisher => MetaScan { publisher: text, ..cleared },
        Pending::Isbn => MetaScan { isbn: text, ..cleared },
        Pending::Rights => MetaScan { rights: text, ..cleared },
        Pending::Nothing => cleared,
    }
}

/// Reading one event of a package document for its metadata. Inside
/// `metadata`, a `title`, `description`, `creator`, `publisher`, `rights`,
/// or an `identifier` with an attribute valued `isbn`, takes the text of
/// the event right after it (that event is used up either way); a
/// `subject` anywhere does the same, adding a subject; a `meta` with `name`
/// `calibre:series` or `calibre:series_index` gives the series or one more
/// series index from its `content`. The end of the document stops reading.
pub open spec fn meta_step(st: MetaScan, e: XmlEventView) -> MetaScan {
    if st.stopped {
        st
    } else if st.pending != Pending::Nothing {
        match e {
            XmlEventView::Characters(t) => MetaScan { pending: Pending::Nothing, ..meta_fill(st, t) },
            XmlEventView::EndDocument => MetaScan { pending: Pending::Nothing, stopped: true, ..st },
            _ => MetaScan { pending: Pending::Nothing, ..st },
        }
    } else {
        match e {
            XmlEventView::StartElement(n, attrs) => if n == "metadata"@ {
                MetaScan { inside: true, ..st }
            } else if st.inside && n == "title"@ {
                MetaScan { pending: Pending::Title, ..st }
            } else if st.inside && n == "description"@ {
                MetaScan { pending: Pending::Description, ..st }
            } else if st.inside && n == "creator"@ {
                MetaScan { pending: Pending::Creator, ..st }
            } else if n == "subject"@ {
                MetaScan { pending: Pending::Subject, ..st }
            } else if st.inside && n == "publisher"@ {
                MetaScan { pending: Pending::Publisher, ..st }
            } else if st.inside && n == "identifier"@ {
                if has_attr_value(attrs, "isbn"@) {
                    MetaScan { pending: Pending::Isbn, ..st }
                } else {
                    st
                }
            } else if st.inside && n == "rights"@ {
                MetaScan { pending: Pending::Rights, ..st }
            } else if st.inside && n == "meta"@ {
                match (find_attr(attrs, "name"@), find_attr(attrs, "content"@)) {
                    (Some(nm), Some(c)) => if nm == "calibre:series"@ {
                        MetaScan { series: c, ..st }
                    } else if nm == "calibre:series_index"@ {
                        MetaScan { series_indexes: st.series_indexes.push(c), ..st }
                    } else {
                        st
                    },
                    _ => st,
                }
            } else {
                st
            },
            XmlEventView::EndDocument => MetaScan { stopped: true, ..st },
            _ => st,
        }
    }
}

pub open spec fn meta_scan(events: Seq<XmlEventView>) -> MetaScan
    decreases events.len(),
{
    if events.len() == 0 {
        meta_start()
    } else {
        meta_step(meta_scan(events.drop_last()), events.last())
    }
}

/// The metadata read from a package document. The series position is
/// still text: every `calibre:series_index` value, in document order.
pub struct ScannedMetadata {
    title: String,
    author: String,
    description: String,
    series: String,
    series_indexes: Vec<String>,
    subjects: Vec<String>,
    isbn: String,
    publisher: String,
    rights: String,
    inside: bool,
    pending: Pending,
    stopped: bool,
}

impl View for ScannedMetadata {
    type V = MetaScan;

    closed spec fn view(&self) -> MetaScan {
        MetaScan {
            title: self.title@,
            author: self.author@,
            description: self.description@,
            series: self.series@,
            series_indexes: self.series_indexes@.map_values(|s: String| s@),
            subjects: self.subjects@.map_values(|s: String| s@),
            isbn: self.isbn@,
            publisher: self.publisher@,
            rights: self.rights@,
            inside: self.inside,
            pending: self.pending,
            stopped: self.stopped,
        }
    }
}

impl ScannedMetadata {
    fn start() -> (m: ScannedMetadata)
        ensures
            m@ == meta_start(),
    {
        let m = ScannedMetadata {
            title: String::from_str("Unknown Title"),
            author: String::from_str("Unknown author"),
            description: String::from_str("N/A"),
            series: String::from_str("N/A"),
            series_indexes: Vec::new(),
            subjects: Vec::new(),
            isbn: String::from_str("N/A"),
            publisher: String::from_str("N/A"),
            rights: String::from_str("N/A"),
            inside: false,
            pending: Pending::Nothing,
            stopped: false,
        };
        proof {
            assert(m@.series_indexes =~= Seq::<Seq<char>>::empty());
            assert(m@.subjects =~= Seq::<Seq<char>>::empty());
        }
        m
    }

    fn fill(&mut self, text: String)
        ensures
            final(self)@ == meta_fill(old(self)@, text@),
    {
        let p = self.pending;
        self.pending = Pending::Nothing;
        match p {
            Pending::Title => self.title = text,
            Pending::Description => self.description = text,
            Pending::Creator => self.author = text,
            Pending::Subject => {
                let ghost before = self.subjects@;
                self.subjects.push(text);
                proof {
                    assert(self.subjects@.map_values(|s: String| s@) =~= before.map_values(
                        |s: String| s@,
                    ).push(text@));
                }
            },
            Pending::Publisher => self.publisher = text,
            Pending::Isbn => self.isbn = text,
            Pending::Rights => self.rights = text,
            Pending::Nothing => {},
        }
    }

    fn step(&mut self, e: &XmlEvent)
        ensures
            final(self)@ == meta_step(old(self)@, e@),
    {
        if self.stopped {
            return ;
        }
        if self.pending != Pending::Nothing {
            match e {
                XmlEvent::Characters(t) => {
                    self.fill(t.clone());
                },
                XmlEvent::EndDocument => {
                    self.pending = Pending::Nothing;
                    self.stopped = true;
                },
                _ => {
                    self.pending = Pending::Nothing;
                },
            }
            return ;
        }
        match e {
            XmlEvent::StartElement { name, attributes } => {
                if is_named(name, "metadata") {
                    self.inside = true;
                } else if self.inside && is_named(name, "title") {
                    self.pending = Pending::Title;
                } else if self.inside && is_named(name, "description") {
                    self.pending = Pending::Description;
                } else if self.inside && is_named(name, "creator") {
                    self.pending = Pending::Creator;
                } else if is_named(name, "subject") {
                    self.pending = Pending::Subject;
                } else if self.inside && is_named(name, "publisher") {
                    self.pending = Pending::Publisher;
                } else if self.inside && is_named(name, "identifier") {
                    if has_value(attributes, "isbn") {
                        self.pending = Pending::Isbn;
                    }
                } else if self.inside && is_named(name, "rights") {
                    self.pending = Pending::Rights;
                } else if self.inside && is_named(name, "meta") {
                    let meta_name = find_attr_value(attributes, "name");
                    let meta_content = find_attr_value(attributes, "content");
                    match (meta_name, meta_content) {
                        (Some(n), Some(c)) => {
                            if is_named(&n, "calibre:series") {
                                self.series = c;
                            } else if is_named(&n, "calibre:series_index") {
                                let ghost before = self.series_indexes@;
                                self.series_indexes.push(c);
                                proof {
                                    assert(self.series_indexes@.map_values(|s: String| s@)
                                        =~= before.map_values(|s: String| s@).push(c@));
                                }
                            }
                        },
                        _ => {},
                    }
                }
            },
            XmlEvent::EndDocument => {
                self.stopped = true;
            },
            _ => {},
        }
    }

    /// Reads the metadata of a package document from its events.
    pub fn from_events(events: &Vec<XmlEvent>) -> (m: ScannedMetadata)
        ensures
            m@ == meta_scan(events_view(events@)),
    {
        let ghost evs = events_view(events@);
        let mut m = ScannedMetadata::start();
        for i in 0..events.len()
            invariant
                evs == events_view(events@),
                m@ == meta_scan(evs.take(i as int)),
        {
            proof {
                assert(evs.take(i + 1).drop_last() =~= evs.take(i as int));
                assert(evs.take(i + 1).last() == events@[i as int]@);
            }
            m.step(&events[i]);
        }
        proof {
            assert(evs.take(events.len() as int) =~= evs);
        }
        m
    }

    /// Reads the metadata of a package document.
    pub fn read(package_xml: &[u8]) -> (m: ScannedMetadata)
        ensures
            m@ == meta_scan(xml_events_of(package_xml@)),
    {
        let events = parse_xml_events(package_xml);
        ScannedMetadata::from_events(&events)
    }

    /// Title, author, description, series, subjects, ISBN, publisher and
    /// rights, as read.
    pub fn into_parts(self) -> (r: (String, String, String, String, Vec<String>, String, String, String))
        ensures
            r.0@ == self@.title,
            r.1@ == self@.author,
            r.2@ == self@.description,
            r.3@ == self@.series,
            r.4@.map_values(|s: String| s@) == self@.subjects,
            r.5@ == self@.isbn,
            r.6@ == self@.publisher,
            r.7@ == self@.rights,
    {
        (
            self.title,
            self.author,
            self.description,
            self.series,
            self.subjects,
            self.isbn,
            self.publisher,
            self.rights,
        )
    }

    /// The `calibre:series_index` values read, in document order.
    pub fn get_series_indexes(&self) -> (r: &Vec<String>)
        ensures
            r@.map_values(|s: String| s@) == self@.series_indexes,
    {
        &self.series_indexes
    }
}

/// State of reading the spine and the manifest of a package document.
pub struct SpineScan {
    pub spine_ids: Seq<Seq<char>>,
    pub items: Seq<(Seq<char>, Seq<char>)>,
    pub in_spine: bool,
    pub in_manifest: bool,
    pub stopped: bool,
}

/// Reading one event for the spine and the manifest: inside `spine`, each
/// `itemref` with an `idref` adds that id; inside `manifest`, each `item`
/// with both an `id` and an `href` adds that pair.
pub open spec fn spine_step(st: SpineScan, e: XmlEventView) -> SpineScan {
    if st.stopped {
        st
    } else {
        match e {
            XmlEventView::StartElement(n, attrs) => if n == "spine"@ {
                SpineScan { in_spine: true, ..st }
            } else if n == "manifest"@ {
                SpineScan { in_manifest: true, ..st }
            } else if st.in_spine && n == "itemref"@ {
                match find_attr(attrs, "idref"@) {
                    Some(id) => SpineScan { spine_ids: st.spine_ids.push(id), ..st },
                    None => st,
                }
            } else if st.in_manifest && n == "item"@ {
                match (find_attr(attrs, "id"@), find_attr(attrs, "href"@)) {
                    (Some(id), Some(href)) => SpineScan { items: st.items.push((id, href)), ..st },
                    _ => st,
                }
            } else {
                st
            },
            XmlEventView::EndElement(n) => if n == "spine"@ {
                SpineScan { in_spine: false, ..st }
            } else if n == "manifest"@ {
                SpineScan { in_manifest: false, ..st }
            } else {
                st
            },
            XmlEventView::EndDocument => SpineScan { stopped: true, ..st },
            _ => st,
        }
    }
}

pub open spec fn spine_scan(events: Seq<XmlEventView>) -> SpineScan
    decreases events.len(),
{
    if events.len() == 0 {
        SpineScan {
            spine_ids: Seq::empty(),
            items: Seq::empty(),
            in_spine: false,
            in_manifest: false,
            stopped: false,
        }
    } else {
        spine_step(spine_scan(events.drop_last()), events.last())
    }
}

/// The spine ids and the manifest `(id, href)` items of a package document.
pub fn spine_and_manifest(events: &Vec<XmlEvent>) -> (r: (Vec<String>, Vec<(String, String)>))
    ensures
        r.0@.map_values(|s: String| s@) == spine_scan(events_view(events@)).spine_ids,
        r.1@.map_values(|p: (String, String)| (p.0@, p.1@)) == spine_scan(
            events_view(events@),
        ).items,
{
    let ghost evs = events_view(events@);
    let mut ids: Vec<String> = Vec::new();
    let mut items: Vec<(String, String)> = Vec::new();
    let mut in_spine = false;
    let mut in_manifest = false;
    let mut stopped = false;
    proof {
        assert(ids@.map_values(|s: String| s@) =~= Seq::<Seq<char>>::empty());
        assert(items@.map_values(|p: (String, String)| (p.0@, p.1@)) =~= Seq::<
            (Seq<char>, Seq<char>),
        >::empty());
    }
    for i in 0..events.len()
        invariant
            evs == events_view(events@),
            ({
                let st = spine_scan(evs.take(i as int));
                &&& ids@.map_values(|s: String| s@) == st.spine_ids
                &&& items@.map_values(|p: (String, String)| (p.0@, p.1@)) == st.items
                &&& in_spine == st.in_spine
                &&& in_manifest == st.in_manifest
                &&& stopped == st.stopped
            }),
    {
        proof {
            assert(evs.take(i + 1).drop_last() =~= evs.take(i as int));
            assert(evs.take(i + 1).last() == events@[i as int]@);
        }
        let ghost ids0 = ids@;
        let ghost items0 = items@;
        if !stopped {
            match &events[i] {
                XmlEvent::StartElement { name, attributes } => {
                    if is_named(name, "spine") {
                        in_spine = true;
                    } else if is_named(name, "manifest") {
                        in_manifest = true;
                    } else if in_spine && is_named(name, "itemref") {
                        match find_attr_value(attributes, "idref") {
                            Some(id) => {
                                ids.push(id);
                                proof {
                                    assert(ids@.map_values(|s: String| s@) =~= ids0.map_values(
                                        |s: String| s@,
                                    ).push(id@));
                                }
                            },
                            None => {},
                        }
                    } else if in_manifest && is_named(name, "item") {
                        let id = find_attr_value(attributes, "id");
                        let href = find_attr_value(attributes, "href");
                        match (id, href) {
                            (Some(id), Some(href)) => {
                                let ghost pair = (id@, href@);
                                items.push((id, href));
                                proof {
                                    assert(items@.map_values(|p: (String, String)| (p.0@, p.1@))
                                        =~= items0.map_values(
                                        |p: (String, String)| (p.0@, p.1@),
                                    ).push(pair));
                                }
                            },
                            _ => {},
                        }
                    }
                },
                XmlEvent::EndElement { name } => {
                    if is_named(name, "spine") {
                        in_spine = false;
                    } else if is_named(name, "manifest") {
                        in_manifest = false;
                    }
                },
                XmlEvent::EndDocument => {
                    stopped = true;
                },
                _ => {},
            }
        }
    }
    proof {
        assert(evs.take(events.len() as int) =~= evs);
    }
    (ids, items)
}

/// The `href` of the last manifest item with id `id`.
pub open spec fn lookup_last(items: Seq<(Seq<char>, Seq<char>)>, id: Seq<char>) -> Option<
    Seq<char>,
>
    decreases items.len(),
{
    if items.len() == 0 {
        None
    } else if items.last().0 == id {
        Some(items.last().1)
    } else {
        lookup_last(items.drop_last(), id)
    }
}

/// Finds the `href` of the last manifest item with id `id`.
pub fn find_manifest_href(items: &Vec<(String, String)>, id: &String) -> (r: Option<String>)
    ensures
        match r {
            Some(h) => lookup_last(items@.map_values(|p: (String, String)| (p.0@, p.1@)), id@)
                == Some(h@),
            None => lookup_last(items@.map_values(|p: (String, String)| (p.0@, p.1@)), id@) is None,
        },
{
    let ghost all = items@.map_values(|p: (String, String)| (p.0@, p.1@));
    let mut i = items.len();
    proof {
        assert(all.take(i as int) =~= all);
    }
    while i > 0
        invariant
            all == items@.map_values(|p: (String, String)| (p.0@, p.1@)),
            i <= items.len(),
            lookup_last(all, id@) == lookup_last(all.take(i as int), id@),
        decreases i,
    {
        proof {
            assert(all.take(i as int).last() == all[i - 1]);
            assert(all.take(i as int).drop_last() =~= all.take(i - 1));
        }
        if items[i - 1].0 == *id {
            return Some(items[i - 1].1.clone());
        }
        i = i - 1;
    }
    None
}

/// State of reading the body text of a content document.
pub struct BodyScan {
    pub text: Seq<char>,
    pub inside: bool,
    pub stopped: bool,
}

/// Reading one event for the body text: text inside `body` is kept, the
/// end of any element inside `body` adds a newline, and the end of `body`
/// or of the document stops reading.
pub open spec fn body_step(st: BodyScan, e: XmlEventView) -> BodyScan {
    if st.stopped {
        st
    } else {
        match e {
            XmlEventView::StartElement(n, _) => if n == "body"@ {
                BodyScan { inside: true, ..st }
            } else {
                st
            },
            XmlEventView::EndElement(n) => if n == "body"@ {
                BodyScan { stopped: true, ..st }
            } else if st.inside {
                BodyScan { text: st.text + "\n"@, ..st }
            } else {
                st
            },
            XmlEventView::Characters(t) => if st.inside {
                BodyScan { text: st.text + t, ..st }
            } else {
                st
            },
            XmlEventView::EndDocument => BodyScan { stopped: true, ..st },
            _ => st,
        }
    }
}

pub open spec fn body_scan(events: Seq<XmlEventView>) -> BodyScan
    decreases events.len(),
{
    if events.len() == 0 {
        BodyScan { text: Seq::empty(), inside: false, stopped: false }
    } else {
        body_step(body_scan(events.drop_last()), events.last())
    }
}

/// The body text of a content document.
pub fn body_text(events: &Vec<XmlEvent>) -> (t: String)
    ensures
        t@ == body_scan(events_view(events@)).text,
{
    let ghost evs = events_view(events@);
    let mut text = String::new();
    let mut inside = false;
    let mut stopped = false;
    for i in 0..events.len()
        invariant
            evs == events_view(events@),
            ({
                let st = body_scan(evs.take(i as int));
                &&& text@ == st.text
                &&& inside == st.inside
                &&& stopped == st.stopped
            }),
    {
        proof {
            assert(evs.take(i + 1).drop_last() =~= evs.take(i as int));
            assert(evs.take(i + 1).last() == events@[i as int]@);
        }
        if !stopped {
            match &events[i] {
                XmlEvent::StartElement { name, .. } => {
                    if is_named(name, "body") {
                        inside = true;
                    }
                },
                XmlEvent::EndElement { name } => {
                    if is_named(name, "body") {
                        stopped = true;
                    } else if inside {
                        text.append("\n");
                    }
                },
                XmlEvent::Characters(t) => {
                    if inside {
                        text.append(t.as_str());
                    }
                },
                XmlEvent::EndDocument => {
                    stopped = true;
                },
                _ => {},
            }
        }
    }
    proof {
        assert(evs.take(events.len() as int) =~= evs);
    }
    text
}

} // verus!
