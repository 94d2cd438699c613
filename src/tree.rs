//! The syntax tree, and its mathematical view.
use vstd::prelude::*;
use std::collections::VecDeque;

verus! {

broadcast use vstd::std_specs::vec::axiom_vec_index_decreases;

/// A literal value: its text exactly as written in the source.
#[derive(Debug)]
pub struct Atom {
    pub content: String,
}

/// A parenthesized or bracketed list of elements.
#[derive(Debug)]
pub struct Annotation {
    pub delimiter: Delimiter,
    pub elements: Vec<Element>,
}

#[derive(Debug)]
pub enum Element {
    Atom(Atom),
    Annotation(Annotation),
}

#[derive(Clone, Copy, Debug, PartialEq, Eq, Structural)]
pub enum Delimiter {
    Paren,
    Bracket,
}

/// A value together with the annotations bound to it, in source order.
#[derive(Debug)]
pub struct Annotated<Inner> {
    pub attached: VecDeque<Annotation>,
    pub inner: Inner,
}

/// One unit of document content.
#[derive(Debug)]
pub enum Entity {
    Raw(Raw),
    IncontextAnnotation(Annotation),
    Item(Annotated<Item>),
    Blob(Annotated<Blob>),
    Block(Annotated<Block>),
}

/// Prose, exactly as written.
#[derive(Debug)]
pub struct Raw {
    pub content: String,
}

#[derive(Debug)]
pub struct Item {
    pub name: Atom,
    pub annotation: Annotation,
}

/// Verbatim text between two fences.
#[derive(Debug)]
pub struct Blob {
    pub content: String,
}

#[derive(Debug)]
pub struct Block {
    pub style: BlockStyle,
    pub name: Atom,
    pub top: Top,
}

/// How a block's extent is closed: by `)`, by `@end`, or by `}`.
#[derive(Clone, Copy, Debug, PartialEq, Eq, Structural)]
pub enum BlockStyle {
    Delimited,
    Incontext,
    Braced,
}

/// A sequence of entities: the document, or a block's body.
#[derive(Debug)]
pub struct Top {
    pub entities: Vec<Entity>,
}

impl Clone for Atom {
    fn clone(&self) -> (r: Atom)
        ensures
            r.content@ == self.content@,
    {
        Atom { content: self.content.clone() }
    }
}

impl Clone for Raw {
    fn clone(&self) -> (r: Raw)
        ensures
            r.content@ == self.content@,
    {
        Raw { content: self.content.clone() }
    }
}

impl Clone for Blob {
    fn clone(&self) -> (r: Blob)
        ensures
            r.content@ == self.content@,
    {
        Blob { content: self.content.clone() }
    }
}

impl Clone for Annotation {
    fn clone(&self) -> (r: Annotation)
        ensures
            annotation_view(r) == annotation_view(*self),
        decreases self, 0nat,
    {
        let mut elements: Vec<Element> = Vec::new();
        let mut i: usize = 0;
        while i < self.elements.len()
            invariant
                i <= self.elements.len(),
                elements_view(elements, elements@.len()) == elements_view(self.elements, i as nat),
            decreases self.elements.len() - i,
        {
            push_element(&mut elements, self.elements[i].clone());
            i = i + 1;
        }
        Annotation { delimiter: self.delimiter, elements }
    }
}

impl Clone for Element {
    fn clone(&self) -> (r: Element)
        ensures
            element_view(r) == element_view(*self),
        decreases self, 0nat,
    {
        match self {
            Element::Atom(a) => Element::Atom(a.clone()),
            Element::Annotation(a) => Element::Annotation(a.clone()),
        }
    }
}

impl Clone for Item {
    fn clone(&self) -> (r: Item)
        ensures
            r.name.content@ == self.name.content@,
            annotation_view(r.annotation) == annotation_view(self.annotation),
    {
        Item { name: self.name.clone(), annotation: self.annotation.clone() }
    }
}

/// A copy of a queue of annotations.
pub(crate) fn clone_queue(q: &VecDeque<Annotation>) -> (r: VecDeque<Annotation>)
    ensures
        queue_view(r) == queue_view(*q),
{
    let mut r: VecDeque<Annotation> = VecDeque::new();
    let mut i: usize = 0;
    while i < q.len()
        invariant
            i <= q@.len(),
            r@.len() == i,
            forall|k: int| 0 <= k < i ==> annotation_view(#[trigger] r@[k]) == annotation_view(q@[k]),
        decreases q@.len() - i,
    {
        let a = q[i].clone();
        r.push_back(a);
        i = i + 1;
    }
    assert(queue_view(r) =~= queue_view(*q));
    r
}

impl<Inner: Clone> Clone for Annotated<Inner> {
    fn clone(&self) -> (r: Annotated<Inner>)
        ensures
            queue_view(r.attached) == queue_view(self.attached),
    {
        Annotated { attached: clone_queue(&self.attached), inner: self.inner.clone() }
    }
}

impl Clone for Entity {
    fn clone(&self) -> (r: Entity)
        ensures
            entity_view(r) == entity_view(*self),
        decreases self, 0nat,
    {
        match self {
            Entity::Raw(r) => Entity::Raw(r.clone()),
            Entity::IncontextAnnotation(a) => Entity::IncontextAnnotation(a.clone()),
            Entity::Item(i) => Entity::Item(
                Annotated { attached: clone_queue(&i.attached), inner: i.inner.clone() },
            ),
            Entity::Blob(b) => Entity::Blob(
                Annotated { attached: clone_queue(&b.attached), inner: b.inner.clone() },
            ),
            Entity::Block(b) => Entity::Block(
                Annotated { attached: clone_queue(&b.attached), inner: b.inner.clone() },
            ),
        }
    }
}

impl Clone for Block {
    fn clone(&self) -> (r: Block)
        ensures
            r.style == self.style,
            r.name.content@ == self.name.content@,
            top_view(r.top) == top_view(self.top),
        decreases self, 0nat,
    {
        Block { style: self.style, name: self.name.clone(), top: self.top.clone() }
    }
}

impl Clone for Top {
    fn clone(&self) -> (r: Top)
        ensures
            top_view(r) == top_view(*self),
        decreases self, 0nat,
    {
        let mut entities: Vec<Entity> = Vec::new();
        let mut i: usize = 0;
        while i < self.entities.len()
            invariant
                i <= self.entities.len(),
                entities_view(entities, entities@.len()) == entities_view(self.entities, i as nat),
            decreases self.entities.len() - i,
        {
            push_entity(&mut entities, self.entities[i].clone());
            i = i + 1;
        }
        Top { entities }
    }
}

impl From<String> for Atom {
    fn from(v: String) -> Atom {
        Atom { content: v }
    }
}

impl vstd::std_specs::convert::FromSpecImpl<String> for Atom {
    open spec fn obeys_from_spec() -> bool {
        true
    }

    open spec fn from_spec(v: String) -> Atom {
        Atom { content: v }
    }
}

impl From<String> for Raw {
    fn from(v: String) -> Raw {
        Raw { content: v }
    }
}

impl vstd::std_specs::convert::FromSpecImpl<String> for Raw {
    open spec fn obeys_from_spec() -> bool {
        true
    }

    open spec fn from_spec(v: String) -> Raw {
        Raw { content: v }
    }
}

impl From<String> for Blob {
    fn from(v: String) -> Blob {
        Blob { content: v }
    }
}

impl vstd::std_specs::convert::FromSpecImpl<String> for Blob {
    open spec fn obeys_from_spec() -> bool {
        true
    }

    open spec fn from_spec(v: String) -> Blob {
        Blob { content: v }
    }
}

impl From<Vec<Entity>> for Top {
    fn from(v: Vec<Entity>) -> Top {
        Top { entities: v }
    }
}

impl vstd::std_specs::convert::FromSpecImpl<Vec<Entity>> for Top {
    open spec fn obeys_from_spec() -> bool {
        true
    }

    open spec fn from_spec(v: Vec<Entity>) -> Top {
        Top { entities: v }
    }
}

impl From<(Delimiter, Vec<Element>)> for Annotation {
    fn from(v: (Delimiter, Vec<Element>)) -> Annotation {
        Annotation { delimiter: v.0, elements: v.1 }
    }
}

impl vstd::std_specs::convert::FromSpecImpl<(Delimiter, Vec<Element>)> for Annotation {
    open spec fn obeys_from_spec() -> bool {
        true
    }

    open spec fn from_spec(v: (Delimiter, Vec<Element>)) -> Annotation {
        Annotation { delimiter: v.0, elements: v.1 }
    }
}

impl From<(Atom, Annotation)> for Item {
    fn from(v: (Atom, Annotation)) -> Item {
        Item { name: v.0, annotation: v.1 }
    }
}

impl vstd::std_specs::convert::FromSpecImpl<(Atom, Annotation)> for Item {
    open spec fn obeys_from_spec() -> bool {
        true
    }

    open spec fn from_spec(v: (Atom, Annotation)) -> Item {
        Item { name: v.0, annotation: v.1 }
    }
}

impl From<(BlockStyle, Atom, Top)> for Block {
    fn from(v: (BlockStyle, Atom, Top)) -> Block {
        Block { style: v.0, name: v.1, top: v.2 }
    }
}

impl vstd::std_specs::convert::FromSpecImpl<(BlockStyle, Atom, Top)> for Block {
    open spec fn obeys_from_spec() -> bool {
        true
    }

    open spec fn from_spec(v: (BlockStyle, Atom, Top)) -> Block {
        Block { style: v.0, name: v.1, top: v.2 }
    }
}

impl<Inner> From<(VecDeque<Annotation>, Inner)> for Annotated<Inner> {
    fn from(v: (VecDeque<Annotation>, Inner)) -> Annotated<Inner> {
        Annotated { attached: v.0, inner: v.1 }
    }
}

impl<Inner> vstd::std_specs::convert::FromSpecImpl<(VecDeque<Annotation>, Inner)> for Annotated<Inner> {
    open spec fn obeys_from_spec() -> bool {
        true
    }

    open spec fn from_spec(v: (VecDeque<Annotation>, Inner)) -> Annotated<Inner> {
        Annotated { attached: v.0, inner: v.1 }
    }
}

impl From<Atom> for Element {
    fn from(v: Atom) -> Element {
        Element::Atom(v)
    }
}

impl vstd::std_specs::convert::FromSpecImpl<Atom> for Element {
    open spec fn obeys_from_spec() -> bool {
        true
    }

    open spec fn from_spec(v: Atom) -> Element {
        Element::Atom(v)
    }
}

impl From<Annotation> for Element {
    fn from(v: Annotation) -> Element {
        Element::Annotation(v)
    }
}

impl vstd::std_specs::convert::FromSpecImpl<Annotation> for Element {
    open spec fn obeys_from_spec() -> bool {
        true
    }

    open spec fn from_spec(v: Annotation) -> Element {
        Element::Annotation(v)
    }
}

impl From<Raw> for Entity {
    fn from(v: Raw) -> Entity {
        Entity::Raw(v)
    }
}

impl vstd::std_specs::convert::FromSpecImpl<Raw> for Entity {
    open spec fn obeys_from_spec() -> bool {
        true
    }

    open spec fn from_spec(v: Raw) -> Entity {
        Entity::Raw(v)
    }
}

impl From<Annotation> for Entity {
    fn from(v: Annotation) -> Entity {
        Entity::IncontextAnnotation(v)
    }
}

impl vstd::std_specs::convert::FromSpecImpl<Annotation> for Entity {
    open spec fn obeys_from_spec() -> bool {
        true
    }

    open spec fn from_spec(v: Annotation) -> Entity {
        Entity::IncontextAnnotation(v)
    }
}

impl From<Annotated<Item>> for Entity {
    fn from(v: Annotated<Item>) -> Entity {
        Entity::Item(v)
    }
}

impl vstd::std_specs::convert::FromSpecImpl<Annotated<Item>> for Entity {
    open spec fn obeys_from_spec() -> bool {
        true
    }

    open spec fn from_spec(v: Annotated<Item>) -> Entity {
        Entity::Item(v)
    }
}

impl From<Annotated<Blob>> for Entity {
    fn from(v: Annotated<Blob>) -> Entity {
        Entity::Blob(v)
    }
}

impl vstd::std_specs::convert::FromSpecImpl<Annotated<Blob>> for Entity {
    open spec fn obeys_from_spec() -> bool {
        true
    }

    open spec fn from_spec(v: Annotated<Blob>) -> Entity {
        Entity::Blob(v)
    }
}

impl From<Annotated<Block>> for Entity {
    fn from(v: Annotated<Block>) -> Entity {
        Entity::Block(v)
    }
}

impl vstd::std_specs::convert::FromSpecImpl<Annotated<Block>> for Entity {
    open spec fn obeys_from_spec() -> bool {
        true
    }

    open spec fn from_spec(v: Annotated<Block>) -> Entity {
        Entity::Block(v)
    }
}

/// The mathematical value of an `Element`.
pub enum ElementV {
    Atom(Seq<char>),
    Annotation(AnnotationV),
}

/// The mathematical value of an `Annotation`.
pub struct AnnotationV {
    pub delimiter: Delimiter,
    pub elements: Seq<ElementV>,
}

/// The mathematical value of an `Entity`.
pub enum EntityV {
    Raw(Seq<char>),
    IncontextAnnotation(AnnotationV),
    Item { attached: Seq<AnnotationV>, name: Seq<char>, payload: AnnotationV },
    Blob { attached: Seq<AnnotationV>, content: Seq<char> },
    Block { attached: Seq<AnnotationV>, style: BlockStyle, name: Seq<char>, body: Seq<EntityV> },
}

pub open spec fn annotation_view(a: Annotation) -> AnnotationV
    decreases a, 0nat,
{
    AnnotationV { delimiter: a.delimiter, elements: elements_view(a.elements, a.elements@.len()) }
}

/// The views of the first `n` elements of `v`.
pub open spec fn elements_view(v: Vec<Element>, n: nat) -> Seq<ElementV>
    decreases v, n,
{
    if n == 0 || n > v@.len() {
        Seq::empty()
    } else {
        elements_view(v, (n - 1) as nat).push(element_view(v[n - 1]))
    }
}

pub open spec fn element_view(e: Element) -> ElementV
    decreases e, 0nat,
{
    match e {
        Element::Atom(a) => ElementV::Atom(a.content@),
        Element::Annotation(a) => ElementV::Annotation(annotation_view(a)),
    }
}

pub open spec fn queue_view(q: VecDeque<Annotation>) -> Seq<AnnotationV> {
    q@.map_values(|a: Annotation| annotation_view(a))
}

pub open spec fn entity_view(e: Entity) -> EntityV
    decreases e, 0nat,
{
    match e {
        Entity::Raw(r) => EntityV::Raw(r.content@),
        Entity::IncontextAnnotation(a) => EntityV::IncontextAnnotation(annotation_view(a)),
        Entity::Item(i) => EntityV::Item {
            attached: queue_view(i.attached),
            name: i.inner.name.content@,
            payload: annotation_view(i.inner.annotation),
        },
        Entity::Blob(b) => EntityV::Blob {
            attached: queue_view(b.attached),
            content: b.inner.content@,
        },
        Entity::Block(b) => EntityV::Block {
            attached: queue_view(b.attached),
            style: b.inner.style,
            name: b.inner.name.content@,
            body: entities_view(b.inner.top.entities, b.inner.top.entities@.len()),
        },
    }
}

/// The views of the first `n` entities of `v`.
pub open spec fn entities_view(v: Vec<Entity>, n: nat) -> Seq<EntityV>
    decreases v, n,
{
    if n == 0 || n > v@.len() {
        Seq::empty()
    } else {
        entities_view(v, (n - 1) as nat).push(entity_view(v[n - 1]))
    }
}

pub open spec fn top_view(t: Top) -> Seq<EntityV> {
    entities_view(t.entities, t.entities@.len())
}

proof fn lemma_elements_view_prefix(v: Vec<Element>, w: Vec<Element>, n: nat)
    requires
        n <= v@.len(),
        n <= w@.len(),
        v@.subrange(0, n as int) == w@.subrange(0, n as int),
    ensures
        elements_view(v, n) == elements_view(w, n),
    decreases n,
{
    if n > 0 {
        assert(v@[n - 1] == v@.subrange(0, n as int)[n - 1]);
        assert(w@[n - 1] == w@.subrange(0, n as int)[n - 1]);
        assert(v@.subrange(0, n - 1) =~= v@.subrange(0, n as int).subrange(0, n - 1));
        assert(w@.subrange(0, n - 1) =~= w@.subrange(0, n as int).subrange(0, n - 1));
        lemma_elements_view_prefix(v, w, (n - 1) as nat);
    }
}

pub(crate) fn push_element(v: &mut Vec<Element>, e: Element)
    ensures
        elements_view(*final(v), final(v)@.len()) == elements_view(*old(v), old(v)@.len()).push(
            element_view(e),
        ),
{
    let ghost old_v = *v;
    v.push(e);
    proof {
        assert(v@.subrange(0, old_v@.len() as int) =~= old_v@.subrange(0, old_v@.len() as int));
        lemma_elements_view_prefix(*v, old_v, old_v@.len());
    }
}

proof fn lemma_entities_view_prefix(v: Vec<Entity>, w: Vec<Entity>, n: nat)
    requires
        n <= v@.len(),
        n <= w@.len(),
        v@.subrange(0, n as int) == w@.subrange(0, n as int),
    ensures
        entities_view(v, n) == entities_view(w, n),
    decreases n,
{
    if n > 0 {
        assert(v@[n - 1] == v@.subrange(0, n as int)[n - 1]);
        assert(w@[n - 1] == w@.subrange(0, n as int)[n - 1]);
        assert(v@.subrange(0, n - 1) =~= v@.subrange(0, n as int).subrange(0, n - 1));
        assert(w@.subrange(0, n - 1) =~= w@.subrange(0, n as int).subrange(0, n - 1));
        lemma_entities_view_prefix(v, w, (n - 1) as nat);
    }
}

pub(crate) fn push_entity(v: &mut Vec<Entity>, e: Entity)
    ensures
        entities_view(*final(v), final(v)@.len()) == entities_view(*old(v), old(v)@.len()).push(
            entity_view(e),
        ),
{
    let ghost old_v = *v;
    v.push(e);
    proof {
        assert(v@.subrange(0, old_v@.len() as int) =~= old_v@.subrange(0, old_v@.len() as int));
        lemma_entities_view_prefix(*v, old_v, old_v@.len());
    }
}

} // verus!
