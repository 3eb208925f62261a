//! What reading a package document and a content document guarantees,
//! stated over the parser's events.

use vstd::prelude::*;
use crate::parsers::epub_xml::{
    body_scan, body_step, find_attr, meta_scan, meta_step, spine_scan, spine_step, BodyScan,
    MetaScan, Pending, SpineScan,
};
use crate::parsers::epub::{entries_insert, spine_fill};
use crate::parsers::epub_xml::lookup_last;
use crate::parsers::xml_events::XmlEventView;

verus! {

/// `e` starts an element named `name`.
pub open spec fn starts(e: XmlEventView, name: Seq<char>) -> bool {
    match e {
        XmlEventView::StartElement(n, _) => n == name,
        _ => false,
    }
}

/// `e` ends an element named `name`.
pub open spec fn ends(e: XmlEventView, name: Seq<char>) -> bool {
    match e {
        XmlEventView::EndElement(n) => n == name,
        _ => false,
    }
}

/// `e` is the end of the document.
pub open spec fn is_doc_end(e: XmlEventView) -> bool {
    e is EndDocument
}

/// `e` starts an element `name` whose attribute named `attr` has the
/// value `v`.
pub open spec fn starts_with_attr(e: XmlEventView, name: Seq<char>, attr: Seq<char>, v: Seq<char>) -> bool {
    match e {
        XmlEventView::StartElement(n, attrs) => n == name && find_attr(attrs, attr) == Some(v),
        _ => false,
    }
}

/// `e` is a manifest `item` whose attributes named `id` and `href` have
/// these values, wherever they stand among its attributes.
pub open spec fn is_item_with(e: XmlEventView, id: Seq<char>, href: Seq<char>) -> bool {
    starts_with_attr(e, "item"@, "id"@, id) && starts_with_attr(e, "item"@, "href"@, href)
}

/// Some event of `events` is an `item` with this `id` and `href`.
pub open spec fn has_item(events: Seq<XmlEventView>, id: Seq<char>, href: Seq<char>) -> bool {
    exists|j: int| 0 <= j < events.len() && #[trigger] is_item_with(events[j], id, href)
}

/// Some event of `events` is an `itemref` with this `idref`.
pub open spec fn has_itemref(events: Seq<XmlEventView>, id: Seq<char>) -> bool {
    exists|j: int|
        0 <= j < events.len() && #[trigger] starts_with_attr(events[j], "itemref"@, "idref"@, id)
}

/// Every manifest item read is an `item` element of the document, taken by
/// the attributes named `id` and `href`; every spine id is the `idref` of
/// an `itemref` element.
pub proof fn law_manifest_items_by_name(events: Seq<XmlEventView>)
    ensures
        forall|i: int|
            0 <= i < spine_scan(events).items.len() ==> has_item(
                events,
                #[trigger] spine_scan(events).items[i].0,
                spine_scan(events).items[i].1,
            ),
        forall|i: int|
            0 <= i < spine_scan(events).spine_ids.len() ==> has_itemref(
                events,
                #[trigger] spine_scan(events).spine_ids[i],
            ),
    decreases events.len(),
{
    if events.len() > 0 {
        let prev = events.drop_last();
        let e = events.last();
        law_manifest_items_by_name(prev);
        let st = spine_scan(prev);
        let nst = spine_scan(events);
        assert(nst == spine_step(st, e));
        let last = events.len() - 1;
        assert(events[last] == e);
        assert forall|i: int| 0 <= i < nst.items.len() implies has_item(
            events,
            #[trigger] nst.items[i].0,
            nst.items[i].1,
        ) by {
            if i < st.items.len() && nst.items[i] == st.items[i] {
                let j = choose|j: int|
                    0 <= j < prev.len() && #[trigger] is_item_with(prev[j], st.items[i].0, st.items[i].1);
                assert(events[j] == prev[j]);
            } else {
                assert(is_item_with(events[last], nst.items[i].0, nst.items[i].1));
            }
        }
        assert forall|i: int| 0 <= i < nst.spine_ids.len() implies has_itemref(
            events,
            #[trigger] nst.spine_ids[i],
        ) by {
            if i < st.spine_ids.len() && nst.spine_ids[i] == st.spine_ids[i] {
                let j = choose|j: int|
                    0 <= j < prev.len() && #[trigger] starts_with_attr(
                        prev[j],
                        "itemref"@,
                        "idref"@,
                        st.spine_ids[i],
                    );
                assert(events[j] == prev[j]);
            } else {
                assert(starts_with_attr(events[last], "itemref"@, "idref"@, nst.spine_ids[i]));
            }
        }
    }
}


/// Reading `q` for the spine and manifest, from state `st`.
pub open spec fn spine_from(st: SpineScan, q: Seq<XmlEventView>) -> SpineScan
    decreases q.len(),
{
    if q.len() == 0 {
        st
    } else {
        spine_step(spine_from(st, q.drop_last()), q.last())
    }
}

proof fn lemma_spine_from_append(st: SpineScan, a: Seq<XmlEventView>, b: Seq<XmlEventView>)
    ensures
        spine_from(st, a + b) == spine_from(spine_from(st, a), b),
    decreases b.len(),
{
    if b.len() == 0 {
        assert(a + b =~= a);
    } else {
        assert((a + b).drop_last() =~= a + b.drop_last());
        assert((a + b).last() == b.last());
        lemma_spine_from_append(st, a, b.drop_last());
    }
}

proof fn lemma_spine_scan_from(events: Seq<XmlEventView>)
    ensures
        spine_scan(events) == spine_from(spine_scan(Seq::empty()), events),
    decreases events.len(),
{
    if events.len() > 0 {
        lemma_spine_scan_from(events.drop_last());
    }
}

/// Without the end of the document, reading goes on; without the end of
/// the manifest, it stays inside the manifest; items already read stay.
proof fn lemma_spine_from_keeps(st: SpineScan, q: Seq<XmlEventView>, x: (Seq<char>, Seq<char>))
    ensures
        (forall|i: int| 0 <= i < q.len() ==> !is_doc_end(#[trigger] q[i])) && !st.stopped
            ==> !spine_from(st, q).stopped,
        (forall|i: int| 0 <= i < q.len() ==> !is_doc_end(#[trigger] q[i]) && !ends(q[i], "manifest"@))
            && !st.stopped && st.in_manifest ==> spine_from(st, q).in_manifest,
        st.items.contains(x) ==> spine_from(st, q).items.contains(x),
    decreases q.len(),
{
    if q.len() > 0 {
        let p = q.drop_last();
        lemma_spine_from_keeps(st, p, x);
        let e = q.last();
        assert(e == q[q.len() - 1]);
        if forall|i: int| 0 <= i < q.len() ==> !is_doc_end(#[trigger] q[i]) {
            assert forall|i: int| 0 <= i < p.len() implies !is_doc_end(#[trigger] p[i]) by {
                assert(p[i] == q[i]);
            }
        }
        if forall|i: int| 0 <= i < q.len() ==> !is_doc_end(#[trigger] q[i]) && !ends(q[i], "manifest"@) {
            assert forall|i: int| 0 <= i < p.len() implies !is_doc_end(#[trigger] p[i]) && !ends(
                p[i],
                "manifest"@,
            ) by {
                assert(p[i] == q[i]);
            }
        }
        let a = spine_from(st, p);
        if a.items.contains(x) {
            let k = choose|k: int| 0 <= k < a.items.len() && a.items[k] == x;
            assert(spine_from(st, q).items[k] == x);
        }
    }
}

/// Every `item` of the manifest that has both an `id` and an `href`
/// attribute is read, whatever the order of its attributes: `pre`, the
/// manifest start, `mid`, the item, then `post`, with neither `pre` nor
/// `mid` ending the document and `mid` not ending the manifest.
pub proof fn law_manifest_item_read(
    pre: Seq<XmlEventView>,
    manifest_attrs: Seq<(Seq<char>, Seq<char>)>,
    mid: Seq<XmlEventView>,
    attrs: Seq<(Seq<char>, Seq<char>)>,
    post: Seq<XmlEventView>,
)
    requires
        forall|i: int| 0 <= i < pre.len() ==> !is_doc_end(#[trigger] pre[i]),
        forall|i: int| 0 <= i < mid.len() ==> !is_doc_end(#[trigger] mid[i]) && !ends(mid[i], "manifest"@),
        find_attr(attrs, "id"@) is Some,
        find_attr(attrs, "href"@) is Some,
    ensures
        spine_scan(
            pre + seq![XmlEventView::StartElement("manifest"@, manifest_attrs)] + mid + seq![
                XmlEventView::StartElement("item"@, attrs),
            ] + post,
        ).items.contains((find_attr(attrs, "id"@).unwrap(), find_attr(attrs, "href"@).unwrap())),
{
    let m = XmlEventView::StartElement("manifest"@, manifest_attrs);
    let it = XmlEventView::StartElement("item"@, attrs);
    let x = (find_attr(attrs, "id"@).unwrap(), find_attr(attrs, "href"@).unwrap());
    let all = pre + seq![m] + mid + seq![it] + post;
    let s0 = spine_scan(Seq::<XmlEventView>::empty());
    assert(!s0.stopped);
    reveal_strlit("manifest");
    reveal_strlit("spine");
    reveal_strlit("item");
    reveal_strlit("itemref");
    lemma_spine_scan_from(all);
    lemma_spine_from_append(s0, pre + seq![m] + mid + seq![it], post);
    lemma_spine_from_append(s0, pre + seq![m] + mid, seq![it]);
    lemma_spine_from_append(s0, pre + seq![m], mid);
    lemma_spine_from_append(s0, pre, seq![m]);
    lemma_spine_from_keeps(s0, pre, x);
    let a = spine_from(s0, pre);
    assert(spine_from(a, seq![m]) == spine_step(a, m)) by {
        let e0 = seq![m].drop_last();
        assert(e0 =~= Seq::<XmlEventView>::empty());
        assert(spine_from(a, e0) == a);
        assert(seq![m].last() == m);
    }
    assert(!a.stopped);
    assert("manifest"@ != "spine"@) by {
        assert("manifest"@.len() != "spine"@.len());
    }
    let b = spine_step(a, m);
    assert(b.in_manifest && !b.stopped);
    lemma_spine_from_keeps(b, mid, x);
    let c = spine_from(b, mid);
    assert(spine_from(c, seq![it]) == spine_step(c, it)) by {
        let e0 = seq![it].drop_last();
        assert(e0 =~= Seq::<XmlEventView>::empty());
        assert(spine_from(c, e0) == c);
        assert(seq![it].last() == it);
    }
    assert(!c.stopped && c.in_manifest);
    assert("item"@ != "spine"@ && "item"@ != "manifest"@ && "item"@ != "itemref"@) by {
        assert("item"@.len() == 4 && "spine"@.len() == 5 && "manifest"@.len() == 8);
        assert("itemref"@.len() == 7);
    }
    let d = spine_step(c, it);
    assert(d.items == c.items.push(x));
    assert(d.items[c.items.len() as int] == x);
    lemma_spine_from_keeps(d, post, x);
}


/// In `events`, some `tag` element starts and the event right after it is
/// the text `t`.
pub open spec fn text_after(events: Seq<XmlEventView>, tag: Seq<char>, t: Seq<char>) -> bool {
    exists|j: int|
        0 <= j && j + 1 < events.len() && #[trigger] starts(events[j], tag) && events[j + 1]
            == XmlEventView::Characters(t)
}

/// Each metadata field read is its default or the text of an element of
/// its own name: title of `title`, author of `creator`, description of
/// `description`, publisher of `publisher`, rights of `rights`, ISBN of
/// `identifier`, and every subject of a `subject`.
pub open spec fn metadata_from_own_elements(events: Seq<XmlEventView>, m: MetaScan) -> bool {
    &&& (m.title == "Unknown Title"@ || text_after(events, "title"@, m.title))
    &&& (m.author == "Unknown author"@ || text_after(events, "creator"@, m.author))
    &&& (m.description == "N/A"@ || text_after(events, "description"@, m.description))
    &&& (m.publisher == "N/A"@ || text_after(events, "publisher"@, m.publisher))
    &&& (m.rights == "N/A"@ || text_after(events, "rights"@, m.rights))
    &&& (m.isbn == "N/A"@ || text_after(events, "identifier"@, m.isbn))
    &&& forall|i: int| 0 <= i < m.subjects.len() ==> text_after(events, "subject"@, #[trigger] m.subjects[i])
}

/// The element whose text a pending field waits for.
pub open spec fn pending_tag(p: Pending) -> Seq<char> {
    match p {
        Pending::Title => "title"@,
        Pending::Description => "description"@,
        Pending::Creator => "creator"@,
        Pending::Subject => "subject"@,
        Pending::Publisher => "publisher"@,
        Pending::Isbn => "identifier"@,
        Pending::Rights => "rights"@,
        Pending::Nothing => Seq::empty(),
    }
}

proof fn lemma_text_after_grows(events: Seq<XmlEventView>, e: XmlEventView, tag: Seq<char>, t: Seq<char>)
    requires
        text_after(events, tag, t),
    ensures
        text_after(events.push(e), tag, t),
{
    let j = choose|j: int|
        0 <= j && j + 1 < events.len() && #[trigger] starts(events[j], tag) && events[j + 1]
            == XmlEventView::Characters(t);
    assert(events.push(e)[j] == events[j]);
    assert(events.push(e)[j + 1] == events[j + 1]);
}

proof fn lemma_meta_sound(events: Seq<XmlEventView>)
    ensures
        metadata_from_own_elements(events, meta_scan(events)),
        meta_scan(events).pending != Pending::Nothing ==> events.len() > 0 && starts(
            events.last(),
            pending_tag(meta_scan(events).pending),
        ),
        meta_scan(events).stopped ==> meta_scan(events).pending == Pending::Nothing,
    decreases events.len(),
{
    if events.len() > 0 {
        let prev = events.drop_last();
        let e = events.last();
        lemma_meta_sound(prev);
        let st = meta_scan(prev);
        let m = meta_scan(events);
        assert(m == meta_step(st, e));
        assert(events =~= prev.push(e));
        if text_after(prev, "title"@, st.title) { lemma_text_after_grows(prev, e, "title"@, st.title); }
        if text_after(prev, "creator"@, st.author) { lemma_text_after_grows(prev, e, "creator"@, st.author); }
        if text_after(prev, "description"@, st.description) { lemma_text_after_grows(prev, e, "description"@, st.description); }
        if text_after(prev, "publisher"@, st.publisher) { lemma_text_after_grows(prev, e, "publisher"@, st.publisher); }
        if text_after(prev, "rights"@, st.rights) { lemma_text_after_grows(prev, e, "rights"@, st.rights); }
        if text_after(prev, "identifier"@, st.isbn) { lemma_text_after_grows(prev, e, "identifier"@, st.isbn); }
        assert forall|i: int| 0 <= i < st.subjects.len() implies text_after(events, "subject"@, #[trigger] st.subjects[i]) by {
            lemma_text_after_grows(prev, e, "subject"@, st.subjects[i]);
        }
        if !st.stopped && st.pending != Pending::Nothing {
            if let XmlEventView::Characters(t) = e {
                let j = prev.len() - 1;
                assert(starts(events[j], pending_tag(st.pending)));
                assert(events[j + 1] == XmlEventView::Characters(t));
                assert(text_after(events, pending_tag(st.pending), t));
                assert forall|i: int| 0 <= i < m.subjects.len() implies text_after(events, "subject"@, #[trigger] m.subjects[i]) by {
                    if i < st.subjects.len() {
                        assert(m.subjects[i] == st.subjects[i]);
                    }
                }
            }
        }
    }
}

/// The book metadata is read only from elements of each field's own name:
/// the author is "Unknown author" or the text right after a `creator`
/// element, never that of another element such as `contributor`; likewise
/// the title, description, publisher, rights, ISBN and every subject.
pub proof fn law_metadata_from_own_elements(events: Seq<XmlEventView>)
    ensures
        metadata_from_own_elements(events, meta_scan(events)),
{
    lemma_meta_sound(events);
}


/// What an event inside `body` adds to the text: its characters, or a line
/// break at the end of any element.
pub open spec fn body_piece(e: XmlEventView) -> Seq<char> {
    match e {
        XmlEventView::Characters(t) => t,
        XmlEventView::EndElement(_) => "\n"@,
        _ => Seq::empty(),
    }
}

/// The text of the events `inner`, all inside `body`.
pub open spec fn body_content(inner: Seq<XmlEventView>) -> Seq<char>
    decreases inner.len(),
{
    if inner.len() == 0 {
        Seq::empty()
    } else {
        body_content(inner.drop_last()) + body_piece(inner.last())
    }
}

/// Reading `q` for the body text, from state `st`.
pub open spec fn body_from(st: BodyScan, q: Seq<XmlEventView>) -> BodyScan
    decreases q.len(),
{
    if q.len() == 0 {
        st
    } else {
        body_step(body_from(st, q.drop_last()), q.last())
    }
}

proof fn lemma_body_from_append(st: BodyScan, a: Seq<XmlEventView>, b: Seq<XmlEventView>)
    ensures
        body_from(st, a + b) == body_from(body_from(st, a), b),
    decreases b.len(),
{
    if b.len() == 0 {
        assert(a + b =~= a);
    } else {
        assert((a + b).drop_last() =~= a + b.drop_last());
        assert((a + b).last() == b.last());
        lemma_body_from_append(st, a, b.drop_last());
    }
}

proof fn lemma_body_scan_from(events: Seq<XmlEventView>)
    ensures
        body_scan(events) == body_from(body_scan(Seq::empty()), events),
    decreases events.len(),
{
    if events.len() > 0 {
        lemma_body_scan_from(events.drop_last());
    }
}

proof fn lemma_body_before(st: BodyScan, pre: Seq<XmlEventView>)
    requires
        !st.stopped,
        !st.inside,
        st.text.len() == 0,
        forall|i: int| 0 <= i < pre.len() ==> !is_doc_end(#[trigger] pre[i]) && !starts(pre[i], "body"@)
            && !ends(pre[i], "body"@),
    ensures
        !body_from(st, pre).stopped,
        !body_from(st, pre).inside,
        body_from(st, pre).text.len() == 0,
    decreases pre.len(),
{
    if pre.len() > 0 {
        let p = pre.drop_last();
        assert forall|i: int| 0 <= i < p.len() implies !is_doc_end(#[trigger] p[i]) && !starts(p[i], "body"@)
            && !ends(p[i], "body"@) by {
            assert(p[i] == pre[i]);
        }
        lemma_body_before(st, p);
        assert(pre.last() == pre[pre.len() - 1]);
    }
}

proof fn lemma_body_inside(st: BodyScan, inner: Seq<XmlEventView>)
    requires
        !st.stopped,
        st.inside,
        forall|i: int| 0 <= i < inner.len() ==> !is_doc_end(#[trigger] inner[i]) && !ends(inner[i], "body"@),
    ensures
        !body_from(st, inner).stopped,
        body_from(st, inner).inside,
        body_from(st, inner).text == st.text + body_content(inner),
    decreases inner.len(),
{
    if inner.len() == 0 {
        assert(st.text + body_content(inner) =~= st.text);
    } else {
        let p = inner.drop_last();
        assert forall|i: int| 0 <= i < p.len() implies !is_doc_end(#[trigger] p[i]) && !ends(p[i], "body"@) by {
            assert(p[i] == inner[i]);
        }
        lemma_body_inside(st, p);
        let e = inner.last();
        assert(e == inner[inner.len() - 1]);
        let a = body_from(st, p);
        assert(st.text + body_content(inner) =~= (st.text + body_content(p)) + body_piece(e));
        match e {
            XmlEventView::StartElement(n, _) => {
                assert(body_from(st, inner).text =~= a.text + body_piece(e));
            },
            XmlEventView::EndElement(n) => {
                assert(n != "body"@);
            },
            XmlEventView::Characters(t) => {},
            XmlEventView::EndDocument => {},
            _ => {
                assert(a.text + body_piece(e) =~= a.text);
            },
        }
    }
}

/// The body text is everything inside `body`: with `pre` before the body
/// (no body start or end, no end of document) and `inner` inside it (no end
/// of the body or of the document), the text read is every character text
/// of `inner`, in order, with a line break at the end of every element;
/// text before the body is left out, and only the end of the body or of
/// the document stops reading.
pub proof fn law_body_text_is_body_content(
    pre: Seq<XmlEventView>,
    body_attrs: Seq<(Seq<char>, Seq<char>)>,
    inner: Seq<XmlEventView>,
)
    requires
        forall|i: int| 0 <= i < pre.len() ==> !is_doc_end(#[trigger] pre[i]) && !starts(pre[i], "body"@)
            && !ends(pre[i], "body"@),
        forall|i: int| 0 <= i < inner.len() ==> !is_doc_end(#[trigger] inner[i]) && !ends(inner[i], "body"@),
    ensures
        body_scan(pre + seq![XmlEventView::StartElement("body"@, body_attrs)] + inner).text
            == body_content(inner),
{
    let b = XmlEventView::StartElement("body"@, body_attrs);
    let s0 = body_scan(Seq::<XmlEventView>::empty());
    lemma_body_scan_from(pre + seq![b] + inner);
    lemma_body_from_append(s0, pre + seq![b], inner);
    lemma_body_from_append(s0, pre, seq![b]);
    lemma_body_before(s0, pre);
    let a = body_from(s0, pre);
    assert(body_from(a, seq![b]) == body_step(a, b)) by {
        let e0 = seq![b].drop_last();
        assert(e0 =~= Seq::<XmlEventView>::empty());
        assert(body_from(a, e0) == a);
        assert(seq![b].last() == b);
    }
    let c = body_step(a, b);
    assert(c.inside && !c.stopped && c.text.len() == 0);
    lemma_body_inside(c, inner);
    assert(c.text + body_content(inner) =~= body_content(inner));
}


/// The id that an `itemref` event names, if it is one with an `idref`.
pub open spec fn itemref_id(e: XmlEventView) -> Option<Seq<char>> {
    match e {
        XmlEventView::StartElement(n, attrs) => if n == "itemref"@ {
            find_attr(attrs, "idref"@)
        } else {
            None
        },
        _ => None,
    }
}

/// The `(id, href)` that an `item` event names, if it has both.
pub open spec fn item_pair(e: XmlEventView) -> Option<(Seq<char>, Seq<char>)> {
    match e {
        XmlEventView::StartElement(n, attrs) => if n == "item"@ {
            match (find_attr(attrs, "id"@), find_attr(attrs, "href"@)) {
                (Some(id), Some(href)) => Some((id, href)),
                _ => None,
            }
        } else {
            None
        },
        _ => None,
    }
}

/// Spine ids and manifest items are read in document order: one more
/// event keeps what was read and adds at most the id of that event, at the
/// end, and at most its item, at the end.
pub proof fn law_spine_read_in_order(events: Seq<XmlEventView>, e: XmlEventView)
    ensures
        spine_scan(events.push(e)).spine_ids == spine_scan(events).spine_ids || (itemref_id(e) is Some
            && spine_scan(events.push(e)).spine_ids == spine_scan(events).spine_ids.push(
            itemref_id(e).unwrap(),
        )),
        spine_scan(events.push(e)).items == spine_scan(events).items || (item_pair(e) is Some
            && spine_scan(events.push(e)).items == spine_scan(events).items.push(
            item_pair(e).unwrap(),
        )),
{
    reveal_strlit("itemref");
    reveal_strlit("item");
    reveal_strlit("spine");
    reveal_strlit("manifest");
    assert(events.push(e).drop_last() =~= events);
    assert("item"@ != "itemref"@) by {
        assert("item"@.len() != "itemref"@.len());
    }
}

/// Every `itemref` of the spine that has an `idref` is read: `pre`, the
/// spine start, `mid`, the itemref, then `post`, with neither `pre` nor
/// `mid` ending the document and `mid` not ending the spine.
pub proof fn law_spine_itemref_read(
    pre: Seq<XmlEventView>,
    spine_attrs: Seq<(Seq<char>, Seq<char>)>,
    mid: Seq<XmlEventView>,
    attrs: Seq<(Seq<char>, Seq<char>)>,
    post: Seq<XmlEventView>,
)
    requires
        forall|i: int| 0 <= i < pre.len() ==> !is_doc_end(#[trigger] pre[i]),
        forall|i: int| 0 <= i < mid.len() ==> !is_doc_end(#[trigger] mid[i]) && !ends(mid[i], "spine"@),
        find_attr(attrs, "idref"@) is Some,
    ensures
        spine_scan(
            pre + seq![XmlEventView::StartElement("spine"@, spine_attrs)] + mid + seq![
                XmlEventView::StartElement("itemref"@, attrs),
            ] + post,
        ).spine_ids.contains(find_attr(attrs, "idref"@).unwrap()),
{
    let sp = XmlEventView::StartElement("spine"@, spine_attrs);
    let it = XmlEventView::StartElement("itemref"@, attrs);
    let x = find_attr(attrs, "idref"@).unwrap();
    let all = pre + seq![sp] + mid + seq![it] + post;
    let s0 = spine_scan(Seq::<XmlEventView>::empty());
    assert(!s0.stopped);
    reveal_strlit("spine");
    reveal_strlit("itemref");
    reveal_strlit("manifest");
    lemma_spine_scan_from(all);
    lemma_spine_from_append(s0, pre + seq![sp] + mid + seq![it], post);
    lemma_spine_from_append(s0, pre + seq![sp] + mid, seq![it]);
    lemma_spine_from_append(s0, pre + seq![sp], mid);
    lemma_spine_from_append(s0, pre, seq![sp]);
    lemma_spine_ids_keep(s0, pre, x);
    let a = spine_from(s0, pre);
    assert(spine_from(a, seq![sp]) == spine_step(a, sp)) by {
        let e0 = seq![sp].drop_last();
        assert(e0 =~= Seq::<XmlEventView>::empty());
        assert(spine_from(a, e0) == a);
        assert(seq![sp].last() == sp);
    }
    assert(!a.stopped);
    let b = spine_step(a, sp);
    assert(b.in_spine && !b.stopped);
    lemma_spine_ids_keep(b, mid, x);
    let c = spine_from(b, mid);
    assert(spine_from(c, seq![it]) == spine_step(c, it)) by {
        let e0 = seq![it].drop_last();
        assert(e0 =~= Seq::<XmlEventView>::empty());
        assert(spine_from(c, e0) == c);
        assert(seq![it].last() == it);
    }
    assert(!c.stopped && c.in_spine);
    assert("itemref"@ != "spine"@ && "itemref"@ != "manifest"@) by {
        assert("itemref"@.len() == 7 && "spine"@.len() == 5 && "manifest"@.len() == 8);
    }
    let d = spine_step(c, it);
    assert(d.spine_ids == c.spine_ids.push(x));
    assert(d.spine_ids[c.spine_ids.len() as int] == x);
    lemma_spine_ids_keep(d, post, x);
}

proof fn lemma_spine_ids_keep(st: SpineScan, q: Seq<XmlEventView>, x: Seq<char>)
    ensures
        (forall|i: int| 0 <= i < q.len() ==> !is_doc_end(#[trigger] q[i])) && !st.stopped
            ==> !spine_from(st, q).stopped,
        (forall|i: int| 0 <= i < q.len() ==> !is_doc_end(#[trigger] q[i]) && !ends(q[i], "spine"@))
            && !st.stopped && st.in_spine ==> spine_from(st, q).in_spine,
        st.spine_ids.contains(x) ==> spine_from(st, q).spine_ids.contains(x),
    decreases q.len(),
{
    if q.len() > 0 {
        let p = q.drop_last();
        lemma_spine_ids_keep(st, p, x);
        let e = q.last();
        assert(e == q[q.len() - 1]);
        if forall|i: int| 0 <= i < q.len() ==> !is_doc_end(#[trigger] q[i]) {
            assert forall|i: int| 0 <= i < p.len() implies !is_doc_end(#[trigger] p[i]) by {
                assert(p[i] == q[i]);
            }
        }
        if forall|i: int| 0 <= i < q.len() ==> !is_doc_end(#[trigger] q[i]) && !ends(q[i], "spine"@) {
            assert forall|i: int| 0 <= i < p.len() implies !is_doc_end(#[trigger] p[i]) && !ends(
                p[i],
                "spine"@,
            ) by {
                assert(p[i] == q[i]);
            }
        }
        let a = spine_from(st, p);
        if a.spine_ids.contains(x) {
            let k = choose|k: int| 0 <= k < a.spine_ids.len() && a.spine_ids[k] == x;
            assert(spine_from(st, q).spine_ids[k] == x);
        }
    }
}


/// Reading `q` for the metadata, from state `st`.
pub open spec fn meta_from(st: MetaScan, q: Seq<XmlEventView>) -> MetaScan
    decreases q.len(),
{
    if q.len() == 0 {
        st
    } else {
        meta_step(meta_from(st, q.drop_last()), q.last())
    }
}

proof fn lemma_meta_from_append(st: MetaScan, a: Seq<XmlEventView>, b: Seq<XmlEventView>)
    ensures
        meta_from(st, a + b) == meta_from(meta_from(st, a), b),
    decreases b.len(),
{
    if b.len() == 0 {
        assert(a + b =~= a);
    } else {
        assert((a + b).drop_last() =~= a + b.drop_last());
        assert((a + b).last() == b.last());
        lemma_meta_from_append(st, a, b.drop_last());
    }
}

proof fn lemma_meta_scan_from(events: Seq<XmlEventView>)
    ensures
        meta_scan(events) == meta_from(meta_scan(Seq::empty()), events),
    decreases events.len(),
{
    if events.len() > 0 {
        lemma_meta_scan_from(events.drop_last());
    }
}

/// `e` starts some element.
pub open spec fn is_start(e: XmlEventView) -> bool {
    e is StartElement
}

/// Without the end of the document reading goes on, once inside `metadata`
/// it stays inside, and after an event that starts no element nothing
/// waits for text.
proof fn lemma_meta_from_facts(st: MetaScan, q: Seq<XmlEventView>)
    requires
        st.stopped ==> st.pending == Pending::Nothing,
    ensures
        (forall|i: int| 0 <= i < q.len() ==> !is_doc_end(#[trigger] q[i])) && !st.stopped
            ==> !meta_from(st, q).stopped,
        st.inside ==> meta_from(st, q).inside,
        q.len() > 0 && !is_start(q.last()) ==> meta_from(st, q).pending == Pending::Nothing,
        meta_from(st, q).stopped ==> meta_from(st, q).pending == Pending::Nothing,
    decreases q.len(),
{
    if q.len() > 0 {
        let p = q.drop_last();
        lemma_meta_from_facts(st, p);
        assert(q.last() == q[q.len() - 1]);
        if forall|i: int| 0 <= i < q.len() ==> !is_doc_end(#[trigger] q[i]) {
            assert forall|i: int| 0 <= i < p.len() implies !is_doc_end(#[trigger] p[i]) by {
                assert(p[i] == q[i]);
            }
        }
    }
}

/// With nothing waiting for a `creator`'s text and no `creator` element in
/// `q`, reading `q` leaves the author as it was.
proof fn lemma_meta_from_author_kept(st: MetaScan, q: Seq<XmlEventView>)
    requires
        st.pending != Pending::Creator,
        forall|i: int| 0 <= i < q.len() ==> !starts(#[trigger] q[i], "creator"@),
    ensures
        meta_from(st, q).author == st.author,
        meta_from(st, q).pending != Pending::Creator,
    decreases q.len(),
{
    if q.len() > 0 {
        let p = q.drop_last();
        assert forall|i: int| 0 <= i < p.len() implies !starts(#[trigger] p[i], "creator"@) by {
            assert(p[i] == q[i]);
        }
        lemma_meta_from_author_kept(st, p);
        assert(q.last() == q[q.len() - 1]);
    }
}

/// The author is the text of the last `creator` element inside
/// `metadata`: after `pre`, the metadata start, `mid`, then a `creator`
/// with its text `t`, and `post` with no further `creator`, the author is
/// `t`. Neither `pre` nor `mid` ends the document, and each is empty or
/// ends with an event that starts no element (so that the next start is
/// not taken as some element's text).
pub proof fn law_last_creator_is_author(
    pre: Seq<XmlEventView>,
    metadata_attrs: Seq<(Seq<char>, Seq<char>)>,
    mid: Seq<XmlEventView>,
    creator_attrs: Seq<(Seq<char>, Seq<char>)>,
    t: Seq<char>,
    post: Seq<XmlEventView>,
)
    requires
        forall|i: int| 0 <= i < pre.len() ==> !is_doc_end(#[trigger] pre[i]),
        forall|i: int| 0 <= i < mid.len() ==> !is_doc_end(#[trigger] mid[i]),
        pre.len() == 0 || !is_start(pre.last()),
        mid.len() == 0 || !is_start(mid.last()),
        forall|i: int| 0 <= i < post.len() ==> !starts(#[trigger] post[i], "creator"@),
    ensures
        meta_scan(
            pre + seq![XmlEventView::StartElement("metadata"@, metadata_attrs)] + mid + seq![
                XmlEventView::StartElement("creator"@, creator_attrs),
                XmlEventView::Characters(t),
            ] + post,
        ).author == t,
{
    let md = XmlEventView::StartElement("metadata"@, metadata_attrs);
    let cr = XmlEventView::StartElement("creator"@, creator_attrs);
    let tx = XmlEventView::Characters(t);
    let all = pre + seq![md] + mid + seq![cr, tx] + post;
    let s0 = meta_scan(Seq::<XmlEventView>::empty());
    assert(!s0.stopped && s0.pending == Pending::Nothing && !s0.inside);
    reveal_strlit("metadata");
    reveal_strlit("creator");
    reveal_strlit("title");
    reveal_strlit("description");
    lemma_meta_scan_from(all);
    lemma_meta_from_append(s0, pre + seq![md] + mid + seq![cr, tx], post);
    lemma_meta_from_append(s0, pre + seq![md] + mid, seq![cr, tx]);
    lemma_meta_from_append(s0, pre + seq![md], mid);
    lemma_meta_from_append(s0, pre, seq![md]);
    lemma_meta_from_facts(s0, pre);
    let a = meta_from(s0, pre);
    assert(!a.stopped && a.pending == Pending::Nothing);
    assert(meta_from(a, seq![md]) == meta_step(a, md)) by {
        let e0 = seq![md].drop_last();
        assert(e0 =~= Seq::<XmlEventView>::empty());
        assert(meta_from(a, e0) == a);
        assert(seq![md].last() == md);
    }
    let b = meta_step(a, md);
    assert(b.inside && !b.stopped && b.pending == Pending::Nothing);
    lemma_meta_from_facts(b, mid);
    let c = meta_from(b, mid);
    assert(c.inside && !c.stopped && c.pending == Pending::Nothing);
    assert(meta_from(c, seq![cr, tx]) == meta_step(meta_step(c, cr), tx)) by {
        let two = seq![cr, tx];
        assert(two.drop_last() =~= seq![cr]);
        assert(two.last() == tx);
        let e0 = seq![cr].drop_last();
        assert(e0 =~= Seq::<XmlEventView>::empty());
        assert(meta_from(c, e0) == c);
        assert(seq![cr].last() == cr);
        assert(meta_from(c, seq![cr]) == meta_step(c, cr));
        assert(meta_from(c, two) == meta_step(meta_from(c, two.drop_last()), two.last()));
    }
    assert("creator"@ != "metadata"@ && "creator"@ != "title"@ && "creator"@ != "description"@) by {
        assert("creator"@.len() == 7 && "metadata"@.len() == 8 && "title"@.len() == 5);
        assert("description"@.len() == 11);
    }
    let d1 = meta_step(c, cr);
    assert(d1.pending == Pending::Creator && !d1.stopped);
    let d = meta_step(d1, tx);
    assert(d.author == t && d.pending == Pending::Nothing);
    lemma_meta_from_author_kept(d, post);
}


/// The manifest lookup takes the last item with the id: it gives the href
/// of an item with that id after which no item has it, and nothing when no
/// item has it.
pub proof fn law_manifest_lookup_takes_last(items: Seq<(Seq<char>, Seq<char>)>, id: Seq<char>)
    ensures
        match lookup_last(items, id) {
            Some(h) => exists|i: int|
                0 <= i < items.len() && #[trigger] items[i] == (id, h) && forall|j: int|
                    i < j < items.len() ==> (#[trigger] items[j]).0 != id,
            None => forall|j: int| 0 <= j < items.len() ==> (#[trigger] items[j]).0 != id,
        },
    decreases items.len(),
{
    if items.len() > 0 {
        let p = items.drop_last();
        law_manifest_lookup_takes_last(p, id);
        let n = items.len() - 1;
        if items.last().0 == id {
            assert(items[n] == (id, items.last().1));
        } else {
            match lookup_last(p, id) {
                Some(h) => {
                    let i = choose|i: int|
                        0 <= i < p.len() && #[trigger] p[i] == (id, h) && forall|j: int|
                            i < j < p.len() ==> (#[trigger] p[j]).0 != id;
                    assert(items[i] == p[i]);
                    assert forall|j: int| i < j < items.len() implies (#[trigger] items[j]).0 != id by {
                        if j < n {
                            assert(items[j] == p[j]);
                        }
                    }
                },
                None => {
                    assert forall|j: int| 0 <= j < items.len() implies (#[trigger] items[j]).0 != id by {
                        if j < n {
                            assert(items[j] == p[j]);
                        }
                    }
                },
            }
        }
    }
}

/// No key occurs twice among `entries`.
pub open spec fn distinct_keys(entries: Seq<(Seq<char>, Seq<char>)>) -> bool {
    forall|a: int, b: int| 0 <= a < b < entries.len() ==> #[trigger] entries[a].0 != #[trigger] entries[b].0
}

/// Some entry has key `k`.
pub open spec fn has_key(entries: Seq<(Seq<char>, Seq<char>)>, k: Seq<char>) -> bool {
    exists|m: int| 0 <= m < entries.len() && #[trigger] entries[m].0 == k
}

proof fn lemma_entries_insert(e: Seq<(Seq<char>, Seq<char>)>, k: Seq<char>, v: Seq<char>)
    requires
        distinct_keys(e),
    ensures
        distinct_keys(entries_insert(e, k, v)),
        has_key(entries_insert(e, k, v), k),
        forall|n: int| 0 <= n < e.len() ==> has_key(entries_insert(e, k, v), #[trigger] e[n].0),
        forall|m: int|
            0 <= m < entries_insert(e, k, v).len() ==> #[trigger] entries_insert(e, k, v)[m] == (k, v)
                || (entries_insert(e, k, v)[m].0 != k && e.contains(entries_insert(e, k, v)[m])),
    decreases e.len(),
{
    let r = entries_insert(e, k, v);
    if e.len() == 0 {
        assert(r[0].0 == k);
    } else if e[0].0 == k {
        assert(r =~= e.update(0, (k, v)));
        assert(r[0].0 == k);
        assert forall|n: int| 0 <= n < e.len() implies has_key(r, #[trigger] e[n].0) by {
            assert(r[n].0 == e[n].0);
        }
        assert forall|m: int| 0 <= m < r.len() implies #[trigger] r[m] == (k, v) || (r[m].0 != k
            && e.contains(r[m])) by {
            if m > 0 {
                assert(r[m] == e[m]);
                assert(e[0].0 != e[m].0);
            }
        }
        assert forall|a: int, b: int| 0 <= a < b < r.len() implies #[trigger] r[a].0 != #[trigger] r[b].0 by {
            assert(r[b] == e[b]);
            if a > 0 {
                assert(r[a] == e[a]);
            } else {
                assert(e[0].0 != e[b].0);
            }
        }
    } else {
        let t = e.drop_first();
        assert(distinct_keys(t)) by {
            assert forall|a: int, b: int| 0 <= a < b < t.len() implies #[trigger] t[a].0 != #[trigger] t[b].0 by {
                assert(t[a] == e[a + 1] && t[b] == e[b + 1]);
            }
        }
        lemma_entries_insert(t, k, v);
        let rt = entries_insert(t, k, v);
        assert(r =~= seq![e[0]] + rt);
        let m0 = choose|m: int| 0 <= m < rt.len() && #[trigger] rt[m].0 == k;
        assert(r[m0 + 1] == rt[m0]);
        assert forall|n: int| 0 <= n < e.len() implies has_key(r, #[trigger] e[n].0) by {
            if n == 0 {
                assert(r[0] == e[0]);
            } else {
                assert(e[n] == t[n - 1]);
                let m = choose|m: int| 0 <= m < rt.len() && #[trigger] rt[m].0 == t[n - 1].0;
                assert(r[m + 1] == rt[m]);
            }
        }
        assert forall|m: int| 0 <= m < r.len() implies #[trigger] r[m] == (k, v) || (r[m].0 != k
            && e.contains(r[m])) by {
            if m == 0 {
                assert(e[0] == r[0]);
            } else {
                assert(r[m] == rt[m - 1]);
                if rt[m - 1] != (k, v) {
                    let i = choose|i: int| 0 <= i < t.len() && t[i] == rt[m - 1];
                    assert(e[i + 1] == t[i]);
                }
            }
        }
        assert forall|a: int, b: int| 0 <= a < b < r.len() implies #[trigger] r[a].0 != #[trigger] r[b].0 by {
            assert(r[b] == rt[b - 1]);
            if a > 0 {
                assert(r[a] == rt[a - 1]);
            } else {
                assert(r[0] == e[0]);
                if rt[b - 1] != (k, v) {
                    let i = choose|i: int| 0 <= i < t.len() && t[i] == rt[b - 1];
                    assert(e[i + 1] == t[i]);
                    assert(e[0].0 != e[i + 1].0);
                }
            }
        }
    }
}

/// The chapters to read, from the spine ids and the manifest items: each
/// is a spine id paired with the href of the last manifest item with that
/// id; every spine id that has a manifest item is there; no id twice.
pub proof fn law_chapters_from_spine_and_manifest(
    spine_ids: Seq<Seq<char>>,
    items: Seq<(Seq<char>, Seq<char>)>,
)
    ensures
        distinct_keys(spine_fill(Seq::empty(), spine_ids, items)),
        forall|k: int|
            0 <= k < spine_fill(Seq::empty(), spine_ids, items).len() ==> spine_ids.contains(
                (#[trigger] spine_fill(Seq::empty(), spine_ids, items)[k]).0,
            ) && lookup_last(items, spine_fill(Seq::empty(), spine_ids, items)[k].0) == Some(
                spine_fill(Seq::empty(), spine_ids, items)[k].1,
            ),
        forall|i: int|
            0 <= i < spine_ids.len() && lookup_last(items, #[trigger] spine_ids[i]) is Some
                ==> has_key(spine_fill(Seq::empty(), spine_ids, items), spine_ids[i]),
    decreases spine_ids.len(),
{
    let r = spine_fill(Seq::empty(), spine_ids, items);
    if spine_ids.len() > 0 {
        let p = spine_ids.drop_last();
        let id = spine_ids.last();
        law_chapters_from_spine_and_manifest(p, items);
        let e = spine_fill(Seq::empty(), p, items);
        assert(id == spine_ids[spine_ids.len() - 1]);
        assert forall|x: Seq<char>| p.contains(x) implies spine_ids.contains(x) by {
            let i = choose|i: int| 0 <= i < p.len() && p[i] == x;
            assert(spine_ids[i] == x);
        }
        match lookup_last(items, id) {
            Some(href) => {
                lemma_entries_insert(e, id, href);
                assert forall|k: int| 0 <= k < r.len() implies spine_ids.contains((#[trigger] r[k]).0)
                    && lookup_last(items, r[k].0) == Some(r[k].1) by {
                    if r[k] != (id, href) {
                        let j = choose|j: int| 0 <= j < e.len() && e[j] == r[k];
                    }
                }
                assert forall|i: int| 0 <= i < spine_ids.len() && lookup_last(items, #[trigger] spine_ids[i])
                    is Some implies has_key(r, spine_ids[i]) by {
                    if i < p.len() {
                        assert(spine_ids[i] == p[i]);
                        let m = choose|m: int| 0 <= m < e.len() && #[trigger] e[m].0 == p[i];
                        assert(has_key(r, e[m].0));
                    }
                }
            },
            None => {
                assert forall|i: int| 0 <= i < spine_ids.len() && lookup_last(items, #[trigger] spine_ids[i])
                    is Some implies has_key(r, spine_ids[i]) by {
                    if i < p.len() {
                        assert(spine_ids[i] == p[i]);
                    }
                }
            },
        }
    }
}

} // verus!
