//! Paths as text, with `/` between the components.
use crate::lines::{ends_with, has_suffix, join};
use crate::text::{chars_of, same_chars, slices, split_all, split_every, string_of};
use vstd::prelude::*;
use vstd::slice::slice_subrange;
use vstd::string::*;

verus! {

/// A path, kept as it was written.
#[derive(Clone, Debug, PartialEq, Eq, Hash, PartialOrd, Ord)]
pub struct ResourcePath {
    pub text: String,
}

impl View for ResourcePath {
    type V = Seq<char>;

    open spec fn view(&self) -> Seq<char> {
        self.text@
    }
}

/// One component of a path.
#[derive(Clone, Debug, PartialEq, Eq)]
pub enum PathComponent {
    Root,
    Current,
    Parent,
    Normal(String),
}

/// One component of a path, by its contents.
pub enum ComponentView {
    Root,
    Current,
    Parent,
    Normal(Seq<char>),
}

impl View for PathComponent {
    type V = ComponentView;

    open spec fn view(&self) -> ComponentView {
        match self {
            PathComponent::Root => ComponentView::Root,
            PathComponent::Current => ComponentView::Current,
            PathComponent::Parent => ComponentView::Parent,
            PathComponent::Normal(name) => ComponentView::Normal(name@),
        }
    }
}

/// The contents of a list of components.
pub open spec fn component_views(list: Seq<PathComponent>) -> Seq<ComponentView> {
    list.map_values(|c: PathComponent| c@)
}

/// Whether a path starts at the root.
pub open spec fn is_absolute(path: Seq<char>) -> bool {
    path.len() > 0 && path[0] == '/'
}

/// The component that the text between two separators stands for: none where it
/// is empty or a dot.
pub open spec fn piece_component(piece: Seq<char>) -> Option<ComponentView> {
    if piece.len() == 0 || piece == seq!['.'] {
        None
    } else if piece == seq!['.', '.'] {
        Some(ComponentView::Parent)
    } else {
        Some(ComponentView::Normal(piece))
    }
}

/// The components of the texts between separators.
pub open spec fn piece_components(pieces: Seq<Seq<char>>) -> Seq<ComponentView>
    decreases pieces.len(),
{
    if pieces.len() == 0 {
        seq![]
    } else {
        let front = piece_components(pieces.drop_last());
        match piece_component(pieces.last()) {
            Some(c) => front.push(c),
            None => front,
        }
    }
}

/// The component that a path begins with besides its names: the root, or a dot.
pub open spec fn leading_component(path: Seq<char>) -> Seq<ComponentView> {
    if is_absolute(path) {
        seq![ComponentView::Root]
    } else if split_all(path, '/')[0] == seq!['.'] {
        seq![ComponentView::Current]
    } else {
        seq![]
    }
}

/// The components of a path: repeated separators and dots are left out, but for
/// a dot at the beginning.
pub open spec fn components(path: Seq<char>) -> Seq<ComponentView> {
    leading_component(path) + piece_components(split_all(path, '/'))
}

/// Takes a path apart.
pub fn path_components(path: &str) -> (r: Vec<PathComponent>)
    ensures
        component_views(r@) == components(path@),
{
    let chars = chars_of(path);
    let s = chars.as_slice();
    let pieces = split_every(s, '/');
    let ghost all = slices(pieces@);
    let mut r: Vec<PathComponent> = Vec::new();
    let dot: [char; 1] = ['.'];
    let dots: [char; 2] = ['.', '.'];
    assert(dot@ =~= seq!['.']);
    assert(dots@ =~= seq!['.', '.']);
    assert(all[0] == pieces@[0]@);
    if s.len() > 0 && s[0] == '/' {
        r.push(PathComponent::Root);
    } else if same_chars(pieces[0], dot.as_slice()) {
        r.push(PathComponent::Current);
    }
    assert(component_views(r@) =~= leading_component(path@));
    let ghost lead = component_views(r@);
    assert(piece_components(all.take(0)) =~= seq![]);
    assert(component_views(r@) =~= lead + piece_components(all.take(0)));
    for i in 0..pieces.len()
        invariant
            all == slices(pieces@),
            dot@ == seq!['.'],
            dots@ == seq!['.', '.'],
            component_views(r@) == lead + piece_components(all.take(i as int)),
    {
        let piece = pieces[i];
        let ghost before = r@;
        assert(all.take(i + 1).drop_last() =~= all.take(i as int));
        assert(all.take(i + 1).last() == piece@);
        if piece.len() == 0 || same_chars(piece, dot.as_slice()) {
        } else if same_chars(piece, dots.as_slice()) {
            r.push(PathComponent::Parent);
            assert(component_views(r@) =~= component_views(before).push(ComponentView::Parent));
        } else {
            let name = string_of(piece);
            r.push(PathComponent::Normal(name));
            assert(component_views(r@) =~= component_views(before).push(
                ComponentView::Normal(piece@),
            ));
        }
        assert(component_views(r@) =~= lead + piece_components(all.take(i + 1)));
    }
    assert(all.take(all.len() as int) =~= all);
    r
}

/// Whether a path climbs: it starts at the root or holds a parent component.
pub open spec fn climbs(list: Seq<ComponentView>) -> bool {
    exists|i: int|
        0 <= i < list.len() && ((#[trigger] list[i]) is Root || list[i] is Parent)
}

/// Looks for a component that leaves the directory a path starts in.
pub fn path_climbs(list: &[PathComponent]) -> (r: bool)
    ensures
        r == climbs(component_views(list@)),
{
    let ghost all = component_views(list@);
    for i in 0..list.len()
        invariant
            all == component_views(list@),
            forall|k: int| 0 <= k < i ==> !((#[trigger] all[k]) is Root || all[k] is Parent),
    {
        assert(all[i as int] == list@[i as int]@);
        match &list[i] {
            PathComponent::Root | PathComponent::Parent => {
                return true;
            },
            _ => {},
        }
    }
    false
}

/// A path below another: an absolute path stands for itself.
pub open spec fn joined(base: Seq<char>, path: Seq<char>) -> Seq<char> {
    if is_absolute(path) {
        path
    } else if base.len() > 0 && base.last() != '/' {
        base + seq!['/'] + path
    } else {
        base + path
    }
}

/// The names of a path, each after a separator but the first.
pub open spec fn names_text(names: Seq<Seq<char>>) -> Seq<char> {
    join(names, seq!['/'])
}

impl ResourcePath {
    /// The path that a text writes.
    pub fn new(text: &str) -> (path: ResourcePath)
        ensures
            path@ == text@,
    {
        ResourcePath { text: text.to_owned() }
    }

    /// The same path.
    pub fn copy(&self) -> (path: ResourcePath)
        ensures
            path@ == self@,
    {
        ResourcePath { text: self.text.clone() }
    }

    /// The path as text.
    pub fn as_text(&self) -> (text: &str)
        ensures
            text@ == self@,
    {
        self.text.as_str()
    }

    /// A path below this one.
    pub fn join(&self, path: &str) -> (r: ResourcePath)
        ensures
            r@ == joined(self@, path@),
    {
        let below = chars_of(path);
        let base = chars_of(self.text.as_str());
        if below.len() > 0 && below[0] == '/' {
            return ResourcePath { text: path.to_owned() };
        }
        let mut text = self.text.clone();
        if base.len() > 0 && base[base.len() - 1] != '/' {
            text.push('/');
        }
        text.append(path);
        assert(text@ =~= joined(self@, path@));
        ResourcePath { text }
    }

    /// The components of the path.
    pub fn components(&self) -> (r: Vec<PathComponent>)
        ensures
            component_views(r@) == components(self@),
    {
        path_components(self.text.as_str())
    }

    /// Whether two texts write the same path: the same components.
    pub fn same_path(&self, other: &ResourcePath) -> (r: bool)
        ensures
            r == (components(self@) == components(other@)),
    {
        let a = self.components();
        let b = other.components();
        let r = a.len() == b.len() && starts_with_components(a.as_slice(), b.as_slice());
        proof {
            let x = component_views(a@);
            let y = component_views(b@);
            if x.len() == y.len() {
                assert(x.take(y.len() as int) =~= x);
            }
        }
        r
    }

    /// The last component, where it is a name.
    pub fn file_name(&self) -> (r: Option<String>)
        ensures
            optional_name(r) == last_name(components(self@)),
    {
        let list = self.components();
        let ghost all = component_views(list@);
        if list.len() == 0 {
            return None;
        }
        assert(all.last() == list@[list@.len() - 1]@);
        match &list[list.len() - 1] {
            PathComponent::Normal(name) => Some(name.clone()),
            _ => None,
        }
    }
}

/// The text of an optional name.
pub open spec fn optional_name(name: Option<String>) -> Option<Seq<char>> {
    match name {
        Some(n) => Some(n@),
        None => None,
    }
}

/// The last component, where it is a name.
pub open spec fn last_name(list: Seq<ComponentView>) -> Option<Seq<char>> {
    if list.len() == 0 {
        None
    } else {
        match list.last() {
            ComponentView::Normal(name) => Some(name),
            _ => None,
        }
    }
}

/// Whether two components are the same.
pub fn same_component(a: &PathComponent, b: &PathComponent) -> (r: bool)
    ensures
        r == (a@ == b@),
{
    match (a, b) {
        (PathComponent::Root, PathComponent::Root) => true,
        (PathComponent::Current, PathComponent::Current) => true,
        (PathComponent::Parent, PathComponent::Parent) => true,
        (PathComponent::Normal(x), PathComponent::Normal(y)) => *x == *y,
        _ => false,
    }
}

/// Whether a list of components begins with another.
pub fn starts_with_components(list: &[PathComponent], prefix: &[PathComponent]) -> (r: bool)
    ensures
        r == (prefix@.len() <= list@.len() && component_views(list@).take(prefix@.len() as int)
            == component_views(prefix@)),
{
    let ghost x = component_views(list@);
    let ghost y = component_views(prefix@);
    if prefix.len() > list.len() {
        return false;
    }
    for i in 0..prefix.len()
        invariant
            x == component_views(list@),
            y == component_views(prefix@),
            prefix@.len() <= list@.len(),
            forall|k: int| 0 <= k < i ==> x[k] == y[k],
    {
        assert(x[i as int] == list@[i as int]@ && y[i as int] == prefix@[i as int]@);
        if !same_component(&list[i], &prefix[i]) {
            assert(x.take(y.len() as int)[i as int] != y[i as int]);
            return false;
        }
    }
    assert(x.take(y.len() as int) =~= y);
    true
}

/// What follows a prefix: the components after those of the prefix.
pub open spec fn components_below(root: Seq<char>, path: Seq<char>) -> Option<Seq<ComponentView>> {
    let r = components(root);
    let p = components(path);
    if r.len() <= p.len() && p.take(r.len() as int) == r {
        Some(p.skip(r.len() as int))
    } else {
        None
    }
}

/// The components of a path below a root.
pub fn below_root(root: &ResourcePath, path: &ResourcePath) -> (r: Option<Vec<PathComponent>>)
    ensures
        match r {
            Some(list) => components_below(root@, path@) == Some(component_views(list@)),
            None => components_below(root@, path@) is None,
        },
{
    let a = root.components();
    let b = path.components();
    if !starts_with_components(b.as_slice(), a.as_slice()) {
        return None;
    }
    let mut rest: Vec<PathComponent> = Vec::new();
    let ghost all = component_views(b@);
    for i in a.len()..b.len()
        invariant
            all == component_views(b@),
            rest@.len() == i - a@.len(),
            forall|k: int| 0 <= k < rest@.len() ==> (#[trigger] rest@[k])@ == all[k + a@.len()],
    {
        assert(all[i as int] == b@[i as int]@);
        let c = match &b[i] {
            PathComponent::Root => PathComponent::Root,
            PathComponent::Current => PathComponent::Current,
            PathComponent::Parent => PathComponent::Parent,
            PathComponent::Normal(name) => PathComponent::Normal(name.clone()),
        };
        rest.push(c);
    }
    assert(component_views(rest@) =~= all.skip(a@.len() as int));
    Some(rest)
}

/// Whether a path stays inside a root directory.
pub open spec fn is_inside(root: Seq<char>, path: Seq<char>) -> bool {
    match components_below(root, path) {
        Some(rest) => !climbs(rest),
        None => false,
    }
}

/// The text of a component.
pub open spec fn component_text(c: ComponentView) -> Seq<char> {
    match c {
        ComponentView::Root => seq!['/'],
        ComponentView::Current => seq!['.'],
        ComponentView::Parent => seq!['.', '.'],
        ComponentView::Normal(name) => name,
    }
}

/// The text of relative components, with a separator between each two.
pub open spec fn relative_text(list: Seq<ComponentView>) -> Seq<char> {
    names_text(list.map_values(|c: ComponentView| component_text(c)))
}

/// Writes relative components as a path.
pub fn relative_path(list: &[PathComponent]) -> (r: ResourcePath)
    ensures
        r@ == relative_text(component_views(list@)),
{
    let ghost views = component_views(list@);
    let ghost all = views.map_values(|c: ComponentView| component_text(c));
    let mut names: Vec<String> = Vec::new();
    for i in 0..list.len()
        invariant
            views == component_views(list@),
            names@.len() == i,
            forall|k: int| 0 <= k < i ==> (#[trigger] names@[k])@ == component_text(views[k]),
    {
        assert(views[i as int] == list@[i as int]@);
        let name: String = match &list[i] {
            PathComponent::Root => {
                let mut t = String::new();
                t.push('/');
                assert(t@ =~= seq!['/']);
                t
            },
            PathComponent::Current => {
                let mut t = String::new();
                t.push('.');
                assert(t@ =~= seq!['.']);
                t
            },
            PathComponent::Parent => {
                let mut t = String::new();
                t.push('.');
                t.push('.');
                assert(t@ =~= seq!['.', '.']);
                t
            },
            PathComponent::Normal(name) => name.clone(),
        };
        names.push(name);
    }
    assert(crate::text::texts(names@) =~= all);
    let mut separator = String::new();
    separator.push('/');
    assert(separator@ =~= seq!['/']);
    ResourcePath { text: crate::lines::join_texts(names.as_slice(), separator.as_str()) }
}

/// The part of a file name after its last dot, where a dot stands after the
/// first character.
pub open spec fn extension_of(name: Seq<char>) -> Option<Seq<char>>
    decreases name.len(),
{
    extension_before(name, name.len() as int)
}

/// The part of a file name after the last dot that stands before `end`.
pub open spec fn extension_before(name: Seq<char>, end: int) -> Option<Seq<char>>
    decreases end,
{
    if end <= 1 {
        None
    } else if name[end - 1] == '.' {
        Some(name.skip(end))
    } else {
        extension_before(name, end - 1)
    }
}

/// The extension of a file name.
pub fn name_extension(name: &str) -> (r: Option<String>)
    ensures
        optional_name(r) == extension_of(name@),
{
    let chars = chars_of(name);
    let s = chars.as_slice();
    let mut end: usize = s.len();
    while end > 1
        invariant
            s@ == name@,
            end <= s@.len(),
            extension_of(name@) == extension_before(name@, end as int),
        decreases end,
    {
        if s[end - 1] == '.' {
            let rest = slice_subrange(s, end, s.len());
            assert(rest@ =~= name@.skip(end as int));
            return Some(string_of(rest));
        }
        end -= 1;
    }
    None
}

/// A text without a suffix it ends with.
pub open spec fn strip_suffix(s: Seq<char>, suffix: Seq<char>) -> Option<Seq<char>> {
    if ends_with(s, suffix) {
        Some(s.take(s.len() - suffix.len()))
    } else {
        None
    }
}

/// Takes a suffix off a text.
pub fn without_suffix(s: &str, suffix: &str) -> (r: Option<String>)
    ensures
        optional_name(r) == strip_suffix(s@, suffix@),
{
    let a = chars_of(s);
    let b = chars_of(suffix);
    if has_suffix(a.as_slice(), b.as_slice()) {
        let rest = slice_subrange(a.as_slice(), 0, a.len() - b.len());
        assert(rest@ =~= s@.take(s@.len() - suffix@.len()));
        Some(string_of(rest))
    } else {
        None
    }
}

} // verus!
