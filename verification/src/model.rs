//! The shared data model: qualified names and element trees.

use vstd::prelude::*;

verus! {

/// A qualified XML name: a local part with an optional namespace URI and an
/// optional display prefix.
#[derive(Debug)]
pub struct Name {
    /// The local part of the name.
    pub local_name: String,
    /// The fully-qualified URI of the name's namespace, if present.
    pub namespace: Option<String>,
    /// The shortened prefix corresponding to the namespace, if present. When
    /// `namespace` is present but `prefix` is not, the namespace is the
    /// default namespace for this element and its children.
    pub prefix: Option<String>,
}

/// The mathematical value of a [`Name`]: its three parts as character
/// sequences.
#[verifier::ext_equal]
pub struct NameView {
    /// The local part.
    pub local_name: Seq<char>,
    /// The namespace URI, if present.
    pub namespace: Option<Seq<char>>,
    /// The display prefix, if present.
    pub prefix: Option<Seq<char>>,
}

/// The value of an optional string, as an optional character sequence.
pub open spec fn opt_view(o: Option<String>) -> Option<Seq<char>> {
    match o {
        Some(s) => Some(s@),
        None => None,
    }
}

impl View for Name {
    type V = NameView;

    open spec fn view(&self) -> NameView {
        NameView {
            local_name: self.local_name@,
            namespace: opt_view(self.namespace),
            prefix: opt_view(self.prefix),
        }
    }
}

/// Name identity: two names denote the same element name exactly when their
/// local parts and namespaces agree. The prefix is cosmetic and ignored.
pub open spec fn name_matches(a: NameView, b: NameView) -> bool {
    a.local_name == b.local_name && a.namespace == b.namespace
}

impl Name {
    /// Creates a new `Name` with no namespace information.
    pub fn new_no_ns(local_name: String) -> (r: Name)
        ensures
            r@ == (NameView { local_name: local_name@, namespace: None, prefix: None }),
    {
        Name { local_name, namespace: None, prefix: None }
    }

    /// Creates a new `Name` with a namespace URI and no prefix.
    pub fn new_default_ns(local: String, ns: String) -> (r: Name)
        ensures
            r@ == (NameView { local_name: local@, namespace: Some(ns@), prefix: None }),
    {
        Name { local_name: local, namespace: Some(ns), prefix: None }
    }

    /// Creates a new `Name` with the given local name, namespace URI, and
    /// prefix.
    pub fn new(local: String, ns: String, prefix: String) -> (r: Name)
        ensures
            r@ == (NameView {
                local_name: local@,
                namespace: Some(ns@),
                prefix: Some(prefix@),
            }),
    {
        Name { local_name: local, namespace: Some(ns), prefix: Some(prefix) }
    }

    /// Returns a copy of this name with the same three parts.
    pub fn duplicate(&self) -> (r: Name)
        ensures
            r@ == self@,
    {
        Name {
            local_name: self.local_name.clone(),
            namespace: opt_str_clone(&self.namespace),
            prefix: opt_str_clone(&self.prefix),
        }
    }
}

/// Returns a copy of an optional string with the same characters.
fn opt_str_clone(o: &Option<String>) -> (r: Option<String>)
    ensures
        opt_view(r) == opt_view(*o),
{
    match o {
        Some(s) => Some(s.clone()),
        None => None,
    }
}

/// Compares two optional strings by their characters.
fn opt_str_eq(a: &Option<String>, b: &Option<String>) -> (r: bool)
    ensures
        r == (opt_view(*a) == opt_view(*b)),
{
    match (a, b) {
        (None, None) => true,
        (Some(x), Some(y)) => *x == *y,
        _ => false,
    }
}

/// Equality on `Name` ignores the `prefix`, comparing only the `local_name`
/// and the `namespace` URI.
impl PartialEq for Name {
    fn eq(&self, other: &Self) -> (r: bool) {
        self.local_name == other.local_name && opt_str_eq(&self.namespace, &other.namespace)
    }
}

impl vstd::std_specs::cmp::PartialEqSpecImpl for Name {
    open spec fn obeys_eq_spec() -> bool {
        true
    }

    open spec fn eq_spec(&self, other: &Name) -> bool {
        name_matches(self@, other@)
    }
}

/// One item of an element's content, in document order.
#[derive(Debug)]
pub enum ElemContent {
    /// A run of text content.
    Text(String),
    /// A child element.
    Child(Element),
}

/// A representation of an XML element: a name and an ordered mixed sequence
/// of text runs and child elements.
#[derive(Debug)]
pub struct Element {
    /// The name of the element.
    pub name: Name,
    /// The content of the element, in document order.
    pub content: Vec<ElemContent>,
}

/// The mathematical value of one content item.
#[verifier::ext_equal]
pub enum ContentView {
    /// A run of text content.
    Text(Seq<char>),
    /// A child element.
    Child(ElemView),
}

/// The mathematical value of an element tree.
#[verifier::ext_equal]
pub struct ElemView {
    /// The name of the element.
    pub name: NameView,
    /// The content items, in document order.
    pub content: Seq<ContentView>,
}

/// The value of one content item.
pub open spec fn content_view(c: ElemContent) -> ContentView
    decreases c, 0int,
{
    match c {
        ElemContent::Text(s) => ContentView::Text(s@),
        ElemContent::Child(e) => ContentView::Child(elem_view(e)),
    }
}

/// The values of the first `n` content items of `s`.
pub open spec fn contents_view_upto(s: Seq<ElemContent>, n: int) -> Seq<ContentView>
    decreases s, n,
{
    if n <= 0 || n > s.len() {
        Seq::<ContentView>::empty()
    } else {
        contents_view_upto(s, n - 1).push(content_view(s[n - 1]))
    }
}

/// The values of a sequence of content items.
pub open spec fn contents_view(s: Seq<ElemContent>) -> Seq<ContentView>
    decreases s, s.len() as int + 1,
{
    contents_view_upto(s, s.len() as int)
}

/// The value of an element tree.
pub open spec fn elem_view(e: Element) -> ElemView
    decreases e, 1int,
{
    ElemView { name: e.name@, content: contents_view(e.content@) }
}

/// `contents_view_upto(s, n)` holds the values of `s[0]` through `s[n - 1]`,
/// in order.
pub proof fn lemma_contents_view_upto(s: Seq<ElemContent>, n: int)
    requires
        0 <= n <= s.len(),
    ensures
        contents_view_upto(s, n).len() == n,
        forall|j: int| 0 <= j < n ==> contents_view_upto(s, n)[j] == content_view(s[j]),
    decreases n,
{
    if n > 0 {
        lemma_contents_view_upto(s, n - 1);
    }
}

/// The value of a tree is its name's value and its content items' values.
pub broadcast proof fn lemma_elem_view(e: Element)
    ensures
        (#[trigger] elem_view(e)).name == e.name@,
        elem_view(e).content.len() == e.content@.len(),
        forall|j: int|
            0 <= j < e.content@.len() ==> elem_view(e).content[j] == content_view(e.content@[j]),
{
    lemma_contents_view_upto(e.content@, e.content@.len() as int);
}

impl View for ElemContent {
    type V = ContentView;

    open spec fn view(&self) -> ContentView {
        content_view(*self)
    }
}

impl View for Element {
    type V = ElemView;

    open spec fn view(&self) -> ElemView {
        elem_view(*self)
    }
}

impl Element {
    /// Creates an empty `Element` with no namespace in its name.
    pub fn new_no_ns(name: String) -> (r: Element)
        ensures
            r@ == (ElemView {
                name: NameView { local_name: name@, namespace: None, prefix: None },
                content: Seq::<ContentView>::empty(),
            }),
    {
        let e = Element { name: Name::new_no_ns(name), content: Vec::new() };
        proof {
            assert(e@.content =~= Seq::<ContentView>::empty());
        }
        e
    }

    /// Creates an empty `Element` with the given namespace but no prefix.
    pub fn new_default_ns(name: String, ns: String) -> (r: Element)
        ensures
            r@ == (ElemView {
                name: NameView { local_name: name@, namespace: Some(ns@), prefix: None },
                content: Seq::<ContentView>::empty(),
            }),
    {
        let e = Element { name: Name::new_default_ns(name, ns), content: Vec::new() };
        proof {
            assert(e@.content =~= Seq::<ContentView>::empty());
        }
        e
    }

    /// Creates an empty `Element` with the given namespace and prefix.
    pub fn new(name: String, ns: String, prefix: String) -> (r: Element)
        ensures
            r@ == (ElemView {
                name: NameView { local_name: name@, namespace: Some(ns@), prefix: Some(prefix@) },
                content: Seq::<ContentView>::empty(),
            }),
    {
        let e = Element { name: Name::new(name, ns, prefix), content: Vec::new() };
        proof {
            assert(e@.content =~= Seq::<ContentView>::empty());
        }
        e
    }

    /// Appends the given text content to the `Element`.
    pub fn push_text(&mut self, content: String)
        ensures
            final(self)@ == (ElemView {
                name: old(self)@.name,
                content: old(self)@.content.push(ContentView::Text(content@)),
            }),
    {
        let ghost before = *self;
        let ghost t = content;
        self.content.push(ElemContent::Text(content));
        proof {
            lemma_elem_view(before);
            lemma_elem_view(*self);
            assert(self@.content =~= before@.content.push(ContentView::Text(t@)));
        }
    }

    /// Appends a new child `Element` to this `Element`'s content.
    pub fn push_child(&mut self, child: Element)
        ensures
            final(self)@ == (ElemView {
                name: old(self)@.name,
                content: old(self)@.content.push(ContentView::Child(child@)),
            }),
    {
        let ghost before = *self;
        let ghost c = child;
        self.content.push(ElemContent::Child(child));
        proof {
            lemma_elem_view(before);
            lemma_elem_view(*self);
            assert(self@.content =~= before@.content.push(ContentView::Child(c@)));
        }
    }
}

impl Name {
    /// Compares two names structurally: local name, namespace and prefix
    /// all alike. This is finer than `==`, which ignores the prefix.
    pub fn same_parts(&self, other: &Name) -> (r: bool)
        ensures
            r == (self@ == other@),
    {
        let r = self.local_name == other.local_name && opt_str_eq(
            &self.namespace,
            &other.namespace,
        ) && opt_str_eq(&self.prefix, &other.prefix);
        proof {
            if r {
                assert(self@ =~= other@);
            }
        }
        r
    }
}

/// Compares two content items structurally.
fn content_eq(a: &ElemContent, b: &ElemContent) -> (r: bool)
    ensures
        r == (a@ == b@),
    decreases *a, 0int,
{
    match (a, b) {
        (ElemContent::Text(s), ElemContent::Text(t)) => *s == *t,
        (ElemContent::Child(c), ElemContent::Child(d)) => c.deep_eq(d),
        _ => false,
    }
}

impl Element {
    /// Compares two trees structurally: the same names — prefix included —
    /// the same content order, the same text, recursively.
    pub fn deep_eq(&self, other: &Element) -> (r: bool)
        ensures
            r == (self@ == other@),
        decreases *self, 1int,
    {
        proof {
            lemma_elem_view(*self);
            lemma_elem_view(*other);
        }
        if !self.name.same_parts(&other.name) {
            return false;
        }
        if self.content.len() != other.content.len() {
            return false;
        }
        let mut j: usize = 0;
        while j < self.content.len()
            invariant
                j <= self.content@.len(),
                self.content@.len() == other.content@.len(),
                self@.name == other@.name,
                self@.content.len() == self.content@.len(),
                other@.content.len() == other.content@.len(),
                forall|i: int| 0 <= i < j ==> self@.content[i] == other@.content[i],
                forall|i: int|
                    0 <= i < self.content@.len() ==> self@.content[i] == content_view(
                        self.content@[i],
                    ),
                forall|i: int|
                    0 <= i < other.content@.len() ==> other@.content[i] == content_view(
                        other.content@[i],
                    ),
            decreases self.content@.len() - j,
        {
            if !content_eq(&self.content[j], &other.content[j]) {
                proof {
                    assert(self@.content[j as int] != other@.content[j as int]);
                    assert(self@ != other@);
                }
                return false;
            }
            j = j + 1;
        }
        proof {
            assert(self@.content =~= other@.content);
            assert(self@ =~= other@);
        }
        true
    }

    /// Returns the first child element that satisfies the given predicate,
    /// scanning the content in document order and skipping text runs; text
    /// content never matches, and every child element before the returned
    /// one fails the predicate.
    pub fn first_child_where<F: Fn(&Element) -> bool>(&self, pred: F) -> (r: Option<&Element>)
        requires
            forall|e: &Element| #[trigger] pred.requires((e,)),
        ensures
            match r {
                Some(ch) => pred.ensures((ch,), true) && exists|i: int|
                    0 <= i < self.content@.len() && #[trigger] self.content@[i]
                        == ElemContent::Child(*ch) && forall|k: int|
                        0 <= k < i ==> match (#[trigger] self.content@[k]) {
                            ElemContent::Child(c) => pred.ensures((&c,), false),
                            _ => true,
                        },
                None => forall|i: int|
                    0 <= i < self.content@.len() ==> match (#[trigger] self.content@[i]) {
                        ElemContent::Child(c) => pred.ensures((&c,), false),
                        _ => true,
                    },
            },
    {
        let mut j: usize = 0;
        while j < self.content.len()
            invariant
                j <= self.content@.len(),
                forall|e: &Element| #[trigger] pred.requires((e,)),
                forall|i: int|
                    0 <= i < j ==> match (#[trigger] self.content@[i]) {
                        ElemContent::Child(c) => pred.ensures((&c,), false),
                        _ => true,
                    },
            decreases self.content@.len() - j,
        {
            match &self.content[j] {
                ElemContent::Child(ch) => {
                    if pred(ch) {
                        proof {
                            let ji: int = j as int;
                            assert(0 <= ji < self.content@.len() && self.content@[ji]
                                == ElemContent::Child(*ch) && forall|k: int|
                                0 <= k < ji ==> match (#[trigger] self.content@[k]) {
                                    ElemContent::Child(c) => pred.ensures((&c,), false),
                                    _ => true,
                                });
                        }
                        return Some(ch);
                    }
                },
                _ => {},
            }
            j = j + 1;
        }
        None
    }
}

/// Helper trait to provide a generalized conversion from a given type to an
/// `Element`.
pub trait ToXml {
    /// Creates an `Element` from the current instance.
    fn to_xml(&self) -> Element;
}

/// Helper trait to convert an `Element` to a given type.
pub trait FromXml: Sized {
    /// The errors that can occur while converting from the XML.
    type Error;

    /// Creates an instance of `Self` from the given `Element`.
    fn from_xml(elem: &Element) -> Result<Self, Self::Error>;
}

} // verus!
