//! Annotation items and their undo/redo history.

use vstd::prelude::*;
use crate::coordinates::ImagePxRect;
use crate::filter::{apply_box_blur, apply_mosaic, is_blur_of, is_mosaic_of};
use crate::frame::Frame;

verus! {

/// A rectangle to pixelate.
#[derive(Debug, Clone, Copy, PartialEq, Eq, Structural)]
pub struct MosaicShape {
    pub rect: ImagePxRect,
    pub block_size: u32,
}

/// A rectangle to blur.
#[derive(Debug, Clone, Copy, PartialEq, Eq, Structural)]
pub struct BlurShape {
    pub rect: ImagePxRect,
    pub radius: u32,
}

/// A redaction that rewrites the pixels of a rectangle.
#[derive(Debug, Clone, Copy, PartialEq, Eq, Structural)]
pub enum PixelFilter {
    Mosaic(MosaicShape),
    Blur(BlurShape),
}

/// `b` is `a` with the filter applied.
pub open spec fn is_filtered(a: Frame, b: Frame, f: PixelFilter) -> bool {
    match f {
        PixelFilter::Mosaic(m) => is_mosaic_of(a, b, m.rect, m.block_size),
        PixelFilter::Blur(bl) => is_blur_of(a, b, bl.rect, bl.radius),
    }
}

/// Each frame of `chain` is the one before it with the next filter applied.
pub open spec fn is_filter_chain(chain: Seq<Frame>, filters: Seq<PixelFilter>) -> bool {
    &&& chain.len() == filters.len() + 1
    &&& forall|i: int| 0 <= i < filters.len() ==> is_filtered(#[trigger] chain[i], chain[i + 1], filters[i])
}

/// Applies the redaction filters of the visible annotations in order, as
/// the first pass of compositing an annotated image.
pub fn apply_pixel_filters(frame: &mut Frame, filters: &[PixelFilter])
    requires
        old(frame).wf(),
    ensures
        final(frame).wf(),
        exists|chain: Seq<Frame>| {
            &&& is_filter_chain(chain, filters@)
            &&& chain[0] == *old(frame)
            &&& chain.last() == *final(frame)
        },
{
    let ghost mut chain: Seq<Frame> = seq![*frame];
    let mut i: usize = 0;
    while i < filters.len()
        invariant
            frame.wf(),
            i <= filters@.len(),
            chain.len() == i + 1,
            chain[0] == *old(frame),
            chain.last() == *frame,
            forall|j: int| 0 <= j < i ==> is_filtered(#[trigger] chain[j], chain[j + 1], filters@[j]),
        decreases filters@.len() - i,
    {
        let ghost before = *frame;
        match filters[i] {
            PixelFilter::Mosaic(m) => apply_mosaic(frame, m.rect, m.block_size),
            PixelFilter::Blur(b) => apply_box_blur(frame, b.rect, b.radius),
        }
        proof {
            let next = chain.push(*frame);
            assert(next[i as int] == before);
            assert forall|j: int| 0 <= j < i + 1 implies is_filtered(#[trigger] next[j], next[j + 1], filters@[j]) by {
                if j < i {
                    assert(next[j] == chain[j]);
                    assert(next[j + 1] == chain[j + 1]);
                }
            }
            chain = next;
        }
        i = i + 1;
    }
    proof {
        assert(is_filter_chain(chain, filters@));
    }
}

/// One annotation: a shape of kind `K` with an identifier and a visibility
/// flag.
#[derive(Debug, Clone)]
pub struct AnnotationItem<K> {
    pub id: String,
    pub kind: K,
    pub visible: bool,
}

/// A lower-case hexadecimal digit.
pub open spec fn is_lower_hex(c: char) -> bool {
    (48 <= c as int <= 57) || (97 <= c as int <= 102)
}

/// A version 4 UUID in its hyphenated lower-case form: 36 characters, with
/// `-` at positions 8, 13, 18 and 23 and lower-case hexadecimal digits
/// elsewhere; the version digit (position 14) is `4` and the variant digit
/// (position 19) is one of `8`, `9`, `a`, `b`.
pub open spec fn is_uuid_v4_text(s: Seq<char>) -> bool {
    &&& s.len() == 36
    &&& forall|i: int| 0 <= i < 36 ==> if i == 8 || i == 13 || i == 18 || i == 23 {
        s[i] == '-'
    } else {
        is_lower_hex(#[trigger] s[i])
    }
    &&& s[14] == '4'
    &&& (s[19] == '8' || s[19] == '9' || s[19] == 'a' || s[19] == 'b')
}

/// A fresh random identifier in the hyphenated UUID form.
/// Calls `uuid::Uuid::new_v4` and formats it with `to_string`, which gives
/// the lower-case hyphenated form with the version and variant bits of a
/// random UUID set; the other digits are random.
#[verifier::external_body]
pub(crate) fn new_uuid_string() -> (s: String)
    ensures
        is_uuid_v4_text(s@),
{
    uuid::Uuid::new_v4().to_string()
}

impl<K> AnnotationItem<K> {
    /// A visible item of the given kind with a fresh random identifier.
    pub fn new(kind: K) -> (it: Self)
        ensures
            it.kind == kind,
            it.visible,
            is_uuid_v4_text(it.id@),
    {
        AnnotationItem { id: new_uuid_string(), kind, visible: true }
    }
}

impl<K: Clone> AnnotationItem<K> {
    /// A copy kept in the history: the same identifier and visibility.
    fn history_copy(&self) -> (c: Self)
        ensures
            c.id == self.id,
            c.visible == self.visible,
    {
        AnnotationItem { id: self.id.clone(), kind: self.kind.clone(), visible: self.visible }
    }
}

/// An edit recorded in the history.
pub enum AnnotationCommand<K> {
    Add(AnnotationItem<K>),
    Remove(String, Option<AnnotationItem<K>>),
    Clear(Vec<AnnotationItem<K>>),
}

/// An edit kept in a history, with the position in the list it concerns:
/// where a removed item stood, or where an undone addition's item was taken
/// from.
struct HistoryEntry<K> {
    command: AnnotationCommand<K>,
    position: usize,
}

/// What an entry of the undo history determines: which item an undone
/// addition takes away (by identifier), which item an undone removal puts
/// back and at which position, which items an undone clearing restores.
pub enum UndoEntry<K> {
    Add(Seq<char>),
    Remove(Seq<char>, Option<AnnotationItem<K>>, int),
    Clear(Seq<AnnotationItem<K>>),
}

/// What an entry of the redo history determines: which item a redone
/// addition puts back and at which position, which identifier a redone
/// removal takes away (when it recorded an item), and that a redone clearing
/// empties the list.
pub enum RedoEntry<K> {
    Add(AnnotationItem<K>, int),
    Remove(Seq<char>, bool),
    Clear,
}

/// The item list with its undo and redo histories, most recent last.
pub struct StackModel<K> {
    pub items: Seq<AnnotationItem<K>>,
    pub undo: Seq<UndoEntry<K>>,
    pub redo: Seq<RedoEntry<K>>,
}

spec fn undo_entry<K>(e: HistoryEntry<K>) -> UndoEntry<K> {
    match e.command {
        AnnotationCommand::Add(it) => UndoEntry::Add(it.id@),
        AnnotationCommand::Remove(id, o) => UndoEntry::Remove(id@, o, e.position as int),
        AnnotationCommand::Clear(v) => UndoEntry::Clear(v@),
    }
}

spec fn redo_entry<K>(e: HistoryEntry<K>) -> RedoEntry<K> {
    match e.command {
        AnnotationCommand::Add(it) => RedoEntry::Add(it, e.position as int),
        AnnotationCommand::Remove(id, o) => RedoEntry::Remove(id@, o is Some),
        AnnotationCommand::Clear(_) => RedoEntry::Clear,
    }
}

/// `items` with `it` put back at position `pos`, or at the end where the
/// list has become too short for that position.
pub open spec fn place<K>(items: Seq<AnnotationItem<K>>, pos: int, it: AnnotationItem<K>) -> Seq<AnnotationItem<K>> {
    if 0 <= pos <= items.len() {
        items.insert(pos, it)
    } else {
        items.push(it)
    }
}

/// Position of the first item with the given identifier.
pub open spec fn index_of_id<K>(items: Seq<AnnotationItem<K>>, id: Seq<char>) -> Option<int>
    decreases items.len(),
{
    if items.len() == 0 {
        None
    } else {
        match index_of_id(items.drop_last(), id) {
            Some(i) => Some(i),
            None => if items.last().id@ == id { Some(items.len() - 1) } else { None },
        }
    }
}

/// Adding an item appends it, records the addition and forgets what could
/// be redone.
pub open spec fn model_add<K>(m: StackModel<K>, item: AnnotationItem<K>) -> StackModel<K> {
    StackModel { items: m.items.push(item), undo: m.undo.push(UndoEntry::Add(item.id@)), redo: Seq::empty() }
}

/// Removing the first item with an identifier records it and forgets what
/// could be redone; without such an item nothing changes.
pub open spec fn model_remove<K>(m: StackModel<K>, id: Seq<char>) -> (StackModel<K>, bool) {
    match index_of_id(m.items, id) {
        Some(p) => (
            StackModel {
                items: m.items.remove(p),
                undo: m.undo.push(UndoEntry::Remove(id, Some(m.items[p]), p)),
                redo: Seq::empty(),
            },
            true,
        ),
        None => (m, false),
    }
}

/// Clearing a non-empty list records its items and forgets what could be
/// redone; clearing an empty list changes nothing.
pub open spec fn model_clear<K>(m: StackModel<K>) -> StackModel<K> {
    if m.items.len() == 0 {
        m
    } else {
        StackModel { items: Seq::empty(), undo: m.undo.push(UndoEntry::Clear(m.items)), redo: Seq::empty() }
    }
}

/// Undoing the most recent edit moves it to the redo history.
pub open spec fn model_undo<K>(m: StackModel<K>) -> (StackModel<K>, bool) {
    if m.undo.len() == 0 {
        (m, false)
    } else {
        let rest = m.undo.drop_last();
        match m.undo.last() {
            UndoEntry::Add(id) => match index_of_id(m.items, id) {
                Some(p) => (StackModel { items: m.items.remove(p), undo: rest, redo: m.redo.push(RedoEntry::Add(m.items[p], p)) }, true),
                None => (StackModel { items: m.items, undo: rest, redo: m.redo }, true),
            },
            UndoEntry::Remove(id, Some(it), pos) => (StackModel { items: place(m.items, pos, it), undo: rest, redo: m.redo.push(RedoEntry::Remove(id, true)) }, true),
            UndoEntry::Remove(_, None, _) => (StackModel { items: m.items, undo: rest, redo: m.redo }, true),
            UndoEntry::Clear(old) => (StackModel { items: old, undo: rest, redo: m.redo.push(RedoEntry::Clear) }, true),
        }
    }
}

/// Redoing the most recently undone edit moves it back to the undo history.
pub open spec fn model_redo<K>(m: StackModel<K>) -> (StackModel<K>, bool) {
    if m.redo.len() == 0 {
        (m, false)
    } else {
        let rest = m.redo.drop_last();
        match m.redo.last() {
            RedoEntry::Add(it, pos) => (StackModel { items: place(m.items, pos, it), undo: m.undo.push(UndoEntry::Add(it.id@)), redo: rest }, true),
            RedoEntry::Remove(id, true) => match index_of_id(m.items, id) {
                Some(p) => (StackModel { items: m.items.remove(p), undo: m.undo.push(UndoEntry::Remove(id, Some(m.items[p]), p)), redo: rest }, true),
                None => (StackModel { items: m.items, undo: m.undo, redo: rest }, true),
            },
            RedoEntry::Remove(_, false) => (StackModel { items: m.items, undo: m.undo, redo: rest }, true),
            RedoEntry::Clear => (StackModel { items: Seq::empty(), undo: m.undo.push(UndoEntry::Clear(m.items)), redo: rest }, true),
        }
    }
}

proof fn lemma_index_of_id_in_range<K>(items: Seq<AnnotationItem<K>>, id: Seq<char>)
    ensures
        index_of_id(items, id) matches Some(p) ==> 0 <= p < items.len() && items[p].id@ == id,
    decreases items.len(),
{
    if items.len() > 0 {
        lemma_index_of_id_in_range(items.drop_last(), id);
    }
}

proof fn lemma_index_of_id_push<K>(items: Seq<AnnotationItem<K>>, item: AnnotationItem<K>)
    requires
        index_of_id(items, item.id@) is None,
    ensures
        index_of_id(items.push(item), item.id@) == Some(items.len() as int),
{
    assert(items.push(item).drop_last() =~= items);
}

/// Undoing an addition takes the added item away again and forgets the
/// addition, provided no earlier item carries the same identifier.
pub proof fn lemma_add_then_undo<K>(m: StackModel<K>, item: AnnotationItem<K>)
    requires
        index_of_id(m.items, item.id@) is None,
    ensures
        model_undo(model_add(m, item)).1,
        model_undo(model_add(m, item)).0.items == m.items,
        model_undo(model_add(m, item)).0.undo == m.undo,
{
    lemma_index_of_id_push(m.items, item);
    assert(m.items.push(item).remove(m.items.len() as int) =~= m.items);
    assert(m.undo.push(UndoEntry::Add(item.id@)).drop_last() =~= m.undo);
}

/// Redoing an undone addition gives back exactly the state right after the
/// addition, provided no earlier item carries the same identifier.
pub proof fn lemma_add_undo_redo<K>(m: StackModel<K>, item: AnnotationItem<K>)
    requires
        index_of_id(m.items, item.id@) is None,
    ensures
        model_redo(model_undo(model_add(m, item)).0).1,
        model_redo(model_undo(model_add(m, item)).0).0 == model_add(m, item),
{
    lemma_add_then_undo(m, item);
    lemma_index_of_id_push(m.items, item);
    let u = model_undo(model_add(m, item)).0;
    assert(u.redo =~= seq![RedoEntry::Add(m.items.push(item)[m.items.len() as int], m.items.len() as int)]);
    assert(u.redo.drop_last() =~= Seq::<RedoEntry<K>>::empty());
    assert(m.items.insert(m.items.len() as int, item) =~= m.items.push(item));
    assert(model_redo(u).0.items =~= m.items.push(item));
}

/// Undoing the clearing of a non-empty list puts every item back in its
/// place and forgets the clearing; redoing it empties the list again.
pub proof fn lemma_clear_undo_redo<K>(m: StackModel<K>)
    requires
        m.items.len() > 0,
    ensures
        model_undo(model_clear(m)).1,
        model_undo(model_clear(m)).0.items == m.items,
        model_undo(model_clear(m)).0.undo == m.undo,
        model_redo(model_undo(model_clear(m)).0).0 == model_clear(m),
{
    let c = model_clear(m);
    assert(c.undo.drop_last() =~= m.undo);
    let u = model_undo(c).0;
    assert(u.redo =~= seq![RedoEntry::<K>::Clear]);
    assert(u.redo.drop_last() =~= Seq::<RedoEntry<K>>::empty());
}

/// Undoing a removal puts the removed item back where it stood, giving back
/// exactly the list before the removal, and forgets the removal.
pub proof fn lemma_remove_then_undo<K>(m: StackModel<K>, id: Seq<char>)
    requires
        model_remove(m, id).1,
    ensures
        model_undo(model_remove(m, id).0).1,
        model_undo(model_remove(m, id).0).0.items == m.items,
        model_undo(model_remove(m, id).0).0.undo == m.undo,
{
    lemma_index_of_id_in_range(m.items, id);
    let p = index_of_id(m.items, id).unwrap();
    let r = model_remove(m, id).0;
    assert(r.undo.drop_last() =~= m.undo);
    assert(m.items.remove(p).insert(p, m.items[p]) =~= m.items);
}

/// Redoing an undone removal gives back exactly the state right after the
/// removal.
pub proof fn lemma_remove_undo_redo<K>(m: StackModel<K>, id: Seq<char>)
    requires
        model_remove(m, id).1,
    ensures
        model_redo(model_undo(model_remove(m, id).0).0).1,
        model_redo(model_undo(model_remove(m, id).0).0).0 == model_remove(m, id).0,
{
    lemma_remove_then_undo(m, id);
    lemma_index_of_id_in_range(m.items, id);
    let p = index_of_id(m.items, id).unwrap();
    let u = model_undo(model_remove(m, id).0).0;
    assert(u.items == m.items);
    assert(u.redo =~= seq![RedoEntry::<K>::Remove(id, true)]);
    assert(u.redo.drop_last() =~= Seq::<RedoEntry<K>>::empty());
}

/// With nothing to undo, undoing reports so and changes nothing; likewise
/// for redoing.
pub proof fn lemma_empty_history<K>(m: StackModel<K>)
    ensures
        m.undo.len() == 0 ==> model_undo(m) == (m, false),
        m.redo.len() == 0 ==> model_redo(m) == (m, false),
{
}

/// No two items carry the same identifier.
pub open spec fn ids_distinct<K>(items: Seq<AnnotationItem<K>>) -> bool {
    forall|i: int, j: int| 0 <= i < j < items.len() ==> #[trigger] items[i].id@ != #[trigger] items[j].id@
}

/// The most recent entry of the undo history fits the items: an added item
/// is there, a removed item is not and its position is within the list, and
/// after a clearing the list is empty.
pub open spec fn undo_top_fits<K>(m: StackModel<K>) -> bool {
    match m.undo.last() {
        UndoEntry::Add(id) => index_of_id(m.items, id) is Some,
        UndoEntry::Remove(id, Some(it), pos) => it.id@ == id && index_of_id(m.items, id) is None && 0 <= pos
            <= m.items.len(),
        UndoEntry::Remove(_, None, _) => false,
        UndoEntry::Clear(_) => m.items.len() == 0,
    }
}

/// The most recent entry of the redo history fits the items: an item to add
/// back is not there and its position is within the list, and an item to
/// remove again is there.
pub open spec fn redo_top_fits<K>(m: StackModel<K>) -> bool {
    match m.redo.last() {
        RedoEntry::Add(it, pos) => index_of_id(m.items, it.id@) is None && 0 <= pos <= m.items.len(),
        RedoEntry::Remove(id, true) => index_of_id(m.items, id) is Some,
        RedoEntry::Remove(_, false) => false,
        RedoEntry::Clear => true,
    }
}

/// Identifiers are distinct now and after undoing any number of edits, and
/// each undo entry fits the list it is undone on.
pub open spec fn undo_history_fits<K>(m: StackModel<K>) -> bool
    decreases m.undo.len(),
{
    &&& ids_distinct(m.items)
    &&& (m.undo.len() > 0 ==> undo_top_fits(m) && undo_history_fits(model_undo(m).0))
}

/// Identifiers are distinct now and after redoing any number of edits, and
/// each redo entry fits the list it is redone on.
pub open spec fn redo_history_fits<K>(m: StackModel<K>) -> bool
    decreases m.redo.len(),
{
    &&& ids_distinct(m.items)
    &&& (m.redo.len() > 0 ==> redo_top_fits(m) && redo_history_fits(model_redo(m).0))
}

/// The histories fit the items: every state that undoing or redoing leads to
/// is one the edits themselves produced.
pub open spec fn history_fits<K>(m: StackModel<K>) -> bool {
    undo_history_fits(m) && redo_history_fits(m)
}

proof fn lemma_index_of_id_spec<K>(items: Seq<AnnotationItem<K>>, id: Seq<char>)
    ensures
        index_of_id(items, id) is None <==> (forall|j: int| 0 <= j < items.len() ==> (#[trigger] items[j]).id@ != id),
        index_of_id(items, id) matches Some(p) ==> {
            &&& 0 <= p < items.len()
            &&& items[p].id@ == id
            &&& forall|j: int| 0 <= j < p ==> (#[trigger] items[j]).id@ != id
        },
    decreases items.len(),
{
    if items.len() > 0 {
        lemma_index_of_id_spec(items.drop_last(), id);
        assert(forall|j: int| 0 <= j < items.len() - 1 ==> items.drop_last()[j] == #[trigger] items[j]);
    }
}

proof fn lemma_index_of_id_first<K>(items: Seq<AnnotationItem<K>>, id: Seq<char>, p: int)
    requires
        0 <= p < items.len(),
        items[p].id@ == id,
        forall|j: int| 0 <= j < p ==> (#[trigger] items[j]).id@ != id,
    ensures
        index_of_id(items, id) == Some(p),
{
    lemma_index_of_id_spec(items, id);
    let q = index_of_id(items, id).unwrap();
    if q < p {
        assert(items[q].id@ != id);
    } else if q > p {
        assert(items[p].id@ != id);
    }
}

proof fn lemma_undo_fits_same<K>(a: StackModel<K>, b: StackModel<K>)
    requires
        a.items == b.items,
        a.undo == b.undo,
    ensures
        undo_history_fits(a) == undo_history_fits(b),
    decreases a.undo.len(),
{
    if a.undo.len() > 0 {
        lemma_undo_fits_same(model_undo(a).0, model_undo(b).0);
    }
}

proof fn lemma_redo_fits_same<K>(a: StackModel<K>, b: StackModel<K>)
    requires
        a.items == b.items,
        a.redo == b.redo,
    ensures
        redo_history_fits(a) == redo_history_fits(b),
    decreases a.redo.len(),
{
    if a.redo.len() > 0 {
        lemma_redo_fits_same(model_redo(a).0, model_redo(b).0);
    }
}

proof fn lemma_undo_then_redo<K>(m: StackModel<K>)
    requires
        m.undo.len() > 0,
        undo_top_fits(m),
    ensures
        model_undo(m).1,
        model_redo(model_undo(m).0) == (m, true),
{
    let rest = m.undo.drop_last();
    assert(rest.push(m.undo.last()) =~= m.undo);
    let u = model_undo(m).0;
    assert(u.redo.drop_last() =~= m.redo);
    lemma_index_of_id_spec(m.items, m.undo.last()->Add_0);
    match m.undo.last() {
        UndoEntry::Add(id) => {
            let p = index_of_id(m.items, id).unwrap();
            assert(m.items.remove(p).insert(p, m.items[p]) =~= m.items);
        },
        UndoEntry::Remove(id, Some(it), pos) => {
            lemma_index_of_id_spec(m.items, id);
            let items2 = m.items.insert(pos, it);
            assert forall|j: int| 0 <= j < pos implies (#[trigger] items2[j]).id@ != id by {
                assert(items2[j] == m.items[j]);
            }
            lemma_index_of_id_first(items2, id, pos);
            assert(items2.remove(pos) =~= m.items);
        },
        UndoEntry::Remove(_, None, _) => {},
        UndoEntry::Clear(old) => {
            assert(m.items =~= Seq::<AnnotationItem<K>>::empty());
        },
    }
}

proof fn lemma_redo_then_undo<K>(m: StackModel<K>)
    requires
        m.redo.len() > 0,
        redo_top_fits(m),
    ensures
        model_redo(m).1,
        model_undo(model_redo(m).0) == (m, true),
{
    let rest = m.redo.drop_last();
    assert(rest.push(m.redo.last()) =~= m.redo);
    let r = model_redo(m).0;
    assert(r.undo.drop_last() =~= m.undo);
    match m.redo.last() {
        RedoEntry::Add(it, pos) => {
            lemma_index_of_id_spec(m.items, it.id@);
            let items2 = m.items.insert(pos, it);
            assert forall|j: int| 0 <= j < pos implies (#[trigger] items2[j]).id@ != it.id@ by {
                assert(items2[j] == m.items[j]);
            }
            lemma_index_of_id_first(items2, it.id@, pos);
            assert(items2.remove(pos) =~= m.items);
        },
        RedoEntry::Remove(id, true) => {
            lemma_index_of_id_spec(m.items, id);
            let p = index_of_id(m.items, id).unwrap();
            assert(m.items.remove(p).insert(p, m.items[p]) =~= m.items);
        },
        RedoEntry::Remove(_, false) => {},
        RedoEntry::Clear => {},
    }
}

/// A history that fits stays fitting when an edit is undone, and undoing
/// then redoing gives back exactly the state before: the items in their
/// order and both histories.
pub proof fn lemma_undo_redo_round_trip<K>(m: StackModel<K>)
    requires
        history_fits(m),
        m.undo.len() > 0,
    ensures
        model_undo(m).1,
        model_redo(model_undo(m).0) == (m, true),
        history_fits(model_undo(m).0),
{
    assert(undo_top_fits(m));
    lemma_undo_then_redo(m);
    let u = model_undo(m).0;
    assert(model_redo(u).0 == m);
    assert(undo_history_fits(u));
    assert(ids_distinct(u.items));
    assert(ids_distinct(m.items));
    match m.undo.last() {
        UndoEntry::Add(id) => {
            lemma_index_of_id_spec(m.items, id);
            let p = index_of_id(m.items, id).unwrap();
            let items2 = m.items.remove(p);
            assert forall|j: int| 0 <= j < items2.len() implies (#[trigger] items2[j]).id@ != id by {
                if j < p {
                    assert(items2[j] == m.items[j]);
                } else {
                    assert(items2[j] == m.items[j + 1]);
                }
            }
            lemma_index_of_id_spec(items2, id);
            assert(u.redo.last() == RedoEntry::Add(m.items[p], p));
        },
        UndoEntry::Remove(id, Some(it), pos) => {
            let items2 = m.items.insert(pos, it);
            assert(items2[pos] == it);
            lemma_index_of_id_spec(items2, id);
        },
        _ => {},
    }
    assert(redo_top_fits(u));
    assert(redo_history_fits(u));
}

/// A history that fits stays fitting when an undone edit is redone, and
/// redoing then undoing gives back exactly the state before.
pub proof fn lemma_redo_undo_round_trip<K>(m: StackModel<K>)
    requires
        history_fits(m),
        m.redo.len() > 0,
    ensures
        model_redo(m).1,
        model_undo(model_redo(m).0) == (m, true),
        history_fits(model_redo(m).0),
{
    assert(redo_top_fits(m));
    lemma_redo_then_undo(m);
    let r = model_redo(m).0;
    assert(model_undo(r).0 == m);
    assert(redo_history_fits(r));
    assert(ids_distinct(r.items));
    assert(ids_distinct(m.items));
    match m.redo.last() {
        RedoEntry::Add(it, pos) => {
            let items2 = m.items.insert(pos, it);
            assert(items2[pos] == it);
            lemma_index_of_id_spec(items2, it.id@);
        },
        RedoEntry::Remove(id, true) => {
            lemma_index_of_id_spec(m.items, id);
            let p = index_of_id(m.items, id).unwrap();
            let items2 = m.items.remove(p);
            assert forall|j: int| 0 <= j < items2.len() implies (#[trigger] items2[j]).id@ != id by {
                if j < p {
                    assert(items2[j] == m.items[j]);
                } else {
                    assert(items2[j] == m.items[j + 1]);
                }
            }
            lemma_index_of_id_spec(items2, id);
            assert(r.undo.last() == UndoEntry::Remove(id, Some(m.items[p]), p));
        },
        _ => {},
    }
    assert(undo_top_fits(r));
    assert(undo_history_fits(r));
}

/// An empty list without history fits.
pub proof fn lemma_fresh_history_fits<K>(m: StackModel<K>)
    requires
        m.items.len() == 0,
        m.undo.len() == 0,
        m.redo.len() == 0,
    ensures
        history_fits(m),
{
}

/// Adding an item whose identifier no item carries keeps the history
/// fitting.
pub proof fn lemma_add_keeps_fit<K>(m: StackModel<K>, item: AnnotationItem<K>)
    requires
        history_fits(m),
        index_of_id(m.items, item.id@) is None,
    ensures
        history_fits(model_add(m, item)),
{
    let a = model_add(m, item);
    lemma_index_of_id_spec(m.items, item.id@);
    assert(ids_distinct(a.items)) by {
        assert forall|i: int, j: int| 0 <= i < j < a.items.len() implies #[trigger] a.items[i].id@ != #[trigger] a.items[j].id@ by {
            if j == m.items.len() {
                assert(m.items[i].id@ != item.id@);
            }
        }
    }
    lemma_add_then_undo(m, item);
    lemma_index_of_id_push(m.items, item);
    lemma_undo_fits_same(model_undo(a).0, m);
}

/// Removing an item keeps the history fitting.
pub proof fn lemma_remove_keeps_fit<K>(m: StackModel<K>, id: Seq<char>)
    requires
        history_fits(m),
    ensures
        history_fits(model_remove(m, id).0),
{
    if model_remove(m, id).1 {
        let r = model_remove(m, id).0;
        lemma_index_of_id_spec(m.items, id);
        let p = index_of_id(m.items, id).unwrap();
        let items2 = m.items.remove(p);
        assert forall|j: int| 0 <= j < items2.len() implies (#[trigger] items2[j]).id@ != id by {
            if j < p {
                assert(items2[j] == m.items[j]);
            } else {
                assert(items2[j] == m.items[j + 1]);
            }
        }
        lemma_index_of_id_spec(items2, id);
        assert(ids_distinct(items2)) by {
            assert forall|i: int, j: int| 0 <= i < j < items2.len() implies #[trigger] items2[i].id@ != #[trigger] items2[j].id@ by {
                let i0 = if i < p { i } else { i + 1 };
                let j0 = if j < p { j } else { j + 1 };
                assert(items2[i] == m.items[i0]);
                assert(items2[j] == m.items[j0]);
            }
        }
        lemma_remove_then_undo(m, id);
        lemma_undo_fits_same(model_undo(r).0, m);
    }
}

/// Clearing the list keeps the history fitting.
pub proof fn lemma_clear_keeps_fit<K>(m: StackModel<K>)
    requires
        history_fits(m),
    ensures
        history_fits(model_clear(m)),
{
    if m.items.len() > 0 {
        lemma_clear_undo_redo(m);
        lemma_undo_fits_same(model_undo(model_clear(m)).0, m);
    }
}

/// The annotations of an image with their undo/redo history.
pub struct CommandStack<K> {
    items: Vec<AnnotationItem<K>>,
    undo_stack: Vec<HistoryEntry<K>>,
    redo_stack: Vec<HistoryEntry<K>>,
}

proof fn lemma_index_of_id<K>(items: Seq<AnnotationItem<K>>, id: Seq<char>, i: int)
    requires
        0 <= i <= items.len(),
        forall|j: int| 0 <= j < i ==> (#[trigger] items[j]).id@ != id,
    ensures
        index_of_id(items.subrange(0, i), id) is None,
    decreases i,
{
    if i > 0 {
        let s = items.subrange(0, i);
        assert(s.drop_last() == items.subrange(0, i - 1));
        lemma_index_of_id(items, id, i - 1);
    }
}

proof fn lemma_index_of_id_found<K>(items: Seq<AnnotationItem<K>>, id: Seq<char>, i: int, n: int)
    requires
        0 <= i < n <= items.len(),
        items[i].id@ == id,
        forall|j: int| 0 <= j < i ==> (#[trigger] items[j]).id@ != id,
    ensures
        index_of_id(items.subrange(0, n), id) == Some(i),
    decreases n,
{
    let s = items.subrange(0, n);
    assert(s.drop_last() == items.subrange(0, n - 1));
    if n - 1 > i {
        lemma_index_of_id_found(items, id, i, n - 1);
    } else {
        lemma_index_of_id(items, id, i);
    }
}

/// Finds the first item with the given identifier.
fn position_of<K>(items: &Vec<AnnotationItem<K>>, id: &String) -> (r: Option<usize>)
    ensures
        r matches Some(p) ==> p < items@.len() && index_of_id(items@, id@) == Some(p as int),
        r is None ==> index_of_id(items@, id@) is None,
{
    let mut i: usize = 0;
    while i < items.len()
        invariant
            i <= items@.len(),
            forall|j: int| 0 <= j < i ==> (#[trigger] items@[j]).id@ != id@,
        decreases items@.len() - i,
    {
        if items[i].id == *id {
            proof {
                lemma_index_of_id_found(items@, id@, i as int, items@.len() as int);
                assert(items@.subrange(0, items@.len() as int) == items@);
            }
            return Some(i);
        }
        i = i + 1;
    }
    proof {
        lemma_index_of_id(items@, id@, items@.len() as int);
        assert(items@.subrange(0, items@.len() as int) == items@);
    }
    None
}

impl<K: Clone> CommandStack<K> {
    /// The items with their undo and redo histories.
    pub closed spec fn model(&self) -> StackModel<K> {
        StackModel {
            items: self.items@,
            undo: self.undo_stack@.map_values(|e: HistoryEntry<K>| undo_entry(e)),
            redo: self.redo_stack@.map_values(|e: HistoryEntry<K>| redo_entry(e)),
        }
    }

    /// No items and no history.
    pub fn new() -> (s: Self)
        ensures
            s.model().items.len() == 0,
            s.model().undo.len() == 0,
            s.model().redo.len() == 0,
    {
        let s = CommandStack { items: Vec::new(), undo_stack: Vec::new(), redo_stack: Vec::new() };
        proof {
            assert(s.model().undo.len() == 0);
            assert(s.model().redo.len() == 0);
        }
        s
    }

    /// The current items, oldest first.
    pub fn items(&self) -> (r: &[AnnotationItem<K>])
        ensures
            r@ == self.model().items,
    {
        self.items.as_slice()
    }

    /// Appends an item; the addition can be undone, nothing can be redone.
    pub fn add_item(&mut self, item: AnnotationItem<K>)
        ensures
            final(self).model() == model_add(old(self).model(), item),
    {
        let copy = item.history_copy();
        self.items.push(item);
        self.undo_stack.push(HistoryEntry { command: AnnotationCommand::Add(copy), position: 0 });
        self.redo_stack.clear();
        proof {
            assert(self.model().undo =~= model_add(old(self).model(), item).undo);
            assert(self.model().redo =~= Seq::<RedoEntry<K>>::empty());
        }
    }

    /// Removes the first item with the identifier, if there is one; the
    /// removal can be undone, nothing can be redone.
    pub fn remove_item(&mut self, id: &str) -> (removed: bool)
        ensures
            (final(self).model(), removed) == model_remove(old(self).model(), id@),
    {
        let key: String = id.to_owned();
        match position_of(&self.items, &key) {
            Some(pos) => {
                let removed = self.items.remove(pos);
                self.undo_stack.push(HistoryEntry { command: AnnotationCommand::Remove(key, Some(removed)), position: pos });
                self.redo_stack.clear();
                proof {
                    assert(self.model().undo =~= model_remove(old(self).model(), id@).0.undo);
                    assert(self.model().redo =~= Seq::<RedoEntry<K>>::empty());
                }
                true
            },
            None => false,
        }
    }

    /// Removes every item; a non-empty list's clearing can be undone, and
    /// nothing can be redone. Clearing an empty list changes nothing.
    pub fn clear(&mut self)
        ensures
            final(self).model() == model_clear(old(self).model()),
    {
        if self.items.len() == 0 {
            return;
        }
        let mut old_items: Vec<AnnotationItem<K>> = Vec::new();
        std::mem::swap(&mut old_items, &mut self.items);
        self.undo_stack.push(HistoryEntry { command: AnnotationCommand::Clear(old_items), position: 0 });
        self.redo_stack.clear();
        proof {
            assert(self.model().undo =~= model_clear(old(self).model()).undo);
            assert(self.model().redo =~= Seq::<RedoEntry<K>>::empty());
        }
    }

    /// Whether there is an edit to undo.
    pub fn can_undo(&self) -> (b: bool)
        ensures
            b == (self.model().undo.len() > 0),
    {
        self.undo_stack.len() > 0
    }

    /// Whether there is an undone edit to redo.
    pub fn can_redo(&self) -> (b: bool)
        ensures
            b == (self.model().redo.len() > 0),
    {
        self.redo_stack.len() > 0
    }

    /// Undoes the most recent edit, if any: an addition takes the item away
    /// again, a removal puts the item back where it stood, a clearing
    /// restores the items. Returns whether there was an edit.
    pub fn undo(&mut self) -> (done: bool)
        ensures
            (final(self).model(), done) == model_undo(old(self).model()),
    {
        let entry = match self.undo_stack.pop() {
            Some(e) => e,
            None => return false,
        };
        proof {
            assert(self.undo_stack@.map_values(|e: HistoryEntry<K>| undo_entry(e))
                =~= old(self).model().undo.drop_last());
        }
        let position = entry.position;
        match entry.command {
            AnnotationCommand::Add(item) => {
                match position_of(&self.items, &item.id) {
                    Some(pos) => {
                        let removed = self.items.remove(pos);
                        self.redo_stack.push(HistoryEntry { command: AnnotationCommand::Add(removed), position: pos });
                        proof {
                            assert(self.model().redo =~= model_undo(old(self).model()).0.redo);
                        }
                    },
                    None => {},
                }
            },
            AnnotationCommand::Remove(id, Some(item)) => {
                let copy = item.history_copy();
                if position <= self.items.len() {
                    self.items.insert(position, item);
                } else {
                    self.items.push(item);
                }
                self.redo_stack.push(HistoryEntry { command: AnnotationCommand::Remove(id, Some(copy)), position: 0 });
                proof {
                    assert(self.model().redo =~= model_undo(old(self).model()).0.redo);
                }
            },
            AnnotationCommand::Remove(_, None) => {},
            AnnotationCommand::Clear(old_items) => {
                let mut current: Vec<AnnotationItem<K>> = Vec::new();
                std::mem::swap(&mut current, &mut self.items);
                self.redo_stack.push(HistoryEntry { command: AnnotationCommand::Clear(current), position: 0 });
                self.items = old_items;
                proof {
                    assert(self.model().redo =~= model_undo(old(self).model()).0.redo);
                }
            },
        }
        true
    }

    /// Redoes the most recently undone edit, if any: an addition puts its
    /// item back where the undo took it from. Returns whether there was one.
    pub fn redo(&mut self) -> (done: bool)
        ensures
            (final(self).model(), done) == model_redo(old(self).model()),
    {
        let entry = match self.redo_stack.pop() {
            Some(e) => e,
            None => return false,
        };
        proof {
            assert(self.redo_stack@.map_values(|e: HistoryEntry<K>| redo_entry(e))
                =~= old(self).model().redo.drop_last());
        }
        let position = entry.position;
        match entry.command {
            AnnotationCommand::Add(item) => {
                let copy = item.history_copy();
                if position <= self.items.len() {
                    self.items.insert(position, item);
                } else {
                    self.items.push(item);
                }
                self.undo_stack.push(HistoryEntry { command: AnnotationCommand::Add(copy), position: 0 });
                proof {
                    assert(self.model().undo =~= model_redo(old(self).model()).0.undo);
                }
            },
            AnnotationCommand::Remove(id, Some(_)) => {
                match position_of(&self.items, &id) {
                    Some(pos) => {
                        let removed = self.items.remove(pos);
                        self.undo_stack.push(HistoryEntry { command: AnnotationCommand::Remove(id, Some(removed)), position: pos });
                        proof {
                            assert(self.model().undo =~= model_redo(old(self).model()).0.undo);
                        }
                    },
                    None => {},
                }
            },
            AnnotationCommand::Remove(_, None) => {},
            AnnotationCommand::Clear(_) => {
                let mut current: Vec<AnnotationItem<K>> = Vec::new();
                std::mem::swap(&mut current, &mut self.items);
                self.undo_stack.push(HistoryEntry { command: AnnotationCommand::Clear(current), position: 0 });
                proof {
                    assert(self.model().undo =~= model_redo(old(self).model()).0.undo);
                }
            },
        }
        true
    }
}

impl<K: Clone> Default for CommandStack<K> {
    /// The same as `new`: no items and no history.
    fn default() -> (s: Self)
        ensures
            s.model().items.len() == 0,
            s.model().undo.len() == 0,
            s.model().redo.len() == 0,
    {
        Self::new()
    }
}

} // verus!
