//! The files of a workspace as they were observed, and what an operation does to them.
//! A path is that of a file below the root of the workspace, with `/` between names.
use crate::lines::{has_prefix, starts_with};
use crate::order::{sorted_texts, TextMap, TextSet};
use crate::text::{chars_of, find_char, lemma_index_of, string_of};
use vstd::prelude::*;
use vstd::slice::slice_subrange;
use vstd::string::*;
use vstd::utf8::{decode_utf8, valid_utf8};

verus! {

/// What stands at a path.
#[derive(Clone, Debug, PartialEq, Eq)]
pub enum FileNode {
    Directory,
    File(Vec<u8>),
    /// A symbolic link, with what it leads to.
    Link(LinkTarget),
}

/// What a symbolic link leads to.
#[derive(Clone, Debug, PartialEq, Eq)]
pub enum LinkTarget {
    Missing,
    File(Vec<u8>),
    Directory,
}

/// What a symbolic link leads to, by its contents.
#[verifier::ext_equal]
pub enum TargetView {
    Missing,
    File(Seq<u8>),
    Directory,
}

impl View for LinkTarget {
    type V = TargetView;

    open spec fn view(&self) -> TargetView {
        match self {
            LinkTarget::Missing => TargetView::Missing,
            LinkTarget::File(bytes) => TargetView::File(bytes@),
            LinkTarget::Directory => TargetView::Directory,
        }
    }
}

/// What stands at a path, by its contents.
#[verifier::ext_equal]
pub enum NodeView {
    Directory,
    File(Seq<u8>),
    Link(TargetView),
}

impl View for FileNode {
    type V = NodeView;

    open spec fn view(&self) -> NodeView {
        match self {
            FileNode::Directory => NodeView::Directory,
            FileNode::File(bytes) => NodeView::File(bytes@),
            FileNode::Link(target) => NodeView::Link(target@),
        }
    }
}

impl FileNode {
    /// The same node.
    pub fn copy(&self) -> (r: FileNode)
        ensures
            r@ == self@,
    {
        match self {
            FileNode::Directory => FileNode::Directory,
            FileNode::File(bytes) => FileNode::File(copy_bytes(bytes.as_slice())),
            FileNode::Link(target) => FileNode::Link(
                match target {
                    LinkTarget::Missing => LinkTarget::Missing,
                    LinkTarget::File(bytes) => LinkTarget::File(copy_bytes(bytes.as_slice())),
                    LinkTarget::Directory => LinkTarget::Directory,
                },
            ),
        }
    }
}

/// The same bytes.
pub fn copy_bytes(bytes: &[u8]) -> (r: Vec<u8>)
    ensures
        r@ == bytes@,
{
    let mut r: Vec<u8> = Vec::new();
    for i in 0..bytes.len()
        invariant
            r@ == bytes@.take(i as int),
    {
        r.push(bytes[i]);
        assert(r@ =~= bytes@.take(i + 1));
    }
    assert(r@ =~= bytes@);
    r
}

/// One change of the files.
#[derive(Clone, Debug, PartialEq, Eq)]
pub enum FileAction {
    /// A directory, with those above it, is made unless it is there.
    MakeDirectories(String),
    /// A file is written as a whole, or not at all.
    Write { path: String, bytes: Vec<u8> },
    /// A file or a directory with all it holds takes another path.
    Rename { from: String, to: String },
    /// A file or a directory with all it holds is copied.
    CopyTree { from: String, to: String },
    /// A file or a directory with all it holds is removed.
    RemoveTree(String),
}

/// One change of the files, by its contents.
#[verifier::ext_equal]
pub enum ActionView {
    MakeDirectories(Seq<char>),
    Write { path: Seq<char>, bytes: Seq<u8> },
    Rename { from: Seq<char>, to: Seq<char> },
    CopyTree { from: Seq<char>, to: Seq<char> },
    RemoveTree(Seq<char>),
}

impl View for FileAction {
    type V = ActionView;

    open spec fn view(&self) -> ActionView {
        match self {
            FileAction::MakeDirectories(path) => ActionView::MakeDirectories(path@),
            FileAction::Write { path, bytes } => ActionView::Write { path: path@, bytes: bytes@ },
            FileAction::Rename { from, to } => ActionView::Rename { from: from@, to: to@ },
            FileAction::CopyTree { from, to } => ActionView::CopyTree { from: from@, to: to@ },
            FileAction::RemoveTree(path) => ActionView::RemoveTree(path@),
        }
    }
}

/// The contents of a list of changes.
pub open spec fn action_views(list: Seq<FileAction>) -> Seq<ActionView> {
    list.map_values(|a: FileAction| a@)
}

/// What stands where.
pub type Nodes = Map<Seq<char>, NodeView>;

/// Whether a path is that of a directory or lies below it.
pub open spec fn under(directory: Seq<char>, path: Seq<char>) -> bool {
    path == directory || starts_with(path, directory + seq!['/'])
}

/// Tests whether a path is that of a directory or lies below it.
pub fn lies_under(directory: &[char], path: &[char]) -> (r: bool)
    ensures
        r == under(directory@, path@),
{
    if directory.len() == path.len() {
        let same = crate::text::same_chars(directory, path);
        assert(!starts_with(path@, directory@ + seq!['/']));
        return same;
    }
    if directory.len() > path.len() {
        return false;
    }
    let begins = has_prefix(path, directory);
    proof {
        let front = directory@ + seq!['/'];
        if starts_with(path@, front) {
            assert(path@.take(directory@.len() as int) =~= front.take(directory@.len() as int));
            assert(front.take(directory@.len() as int) =~= directory@);
            assert(path@.take(front.len() as int)[directory@.len() as int] == '/');
        }
        if begins && path@[directory@.len() as int] == '/' {
            assert(path@.take(front.len() as int) =~= front) by {
                assert forall|i: int| 0 <= i < front.len() implies path@.take(front.len() as int)[i]
                    == front[i] by {
                    if i < directory@.len() {
                        assert(path@.take(directory@.len() as int)[i] == directory@[i]);
                    }
                }
            }
        }
    }
    begins && path[directory.len()] == '/'
}

/// The path of an entry of a directory.
pub open spec fn entry_path(directory: Seq<char>, name: Seq<char>) -> Seq<char> {
    if directory.len() == 0 {
        name
    } else {
        directory + seq!['/'] + name
    }
}

/// The path of an entry of a directory.
pub fn path_in(directory: &str, name: &str) -> (r: String)
    ensures
        r@ == entry_path(directory@, name@),
{
    let chars = chars_of(directory);
    if chars.len() == 0 {
        return name.to_owned();
    }
    let mut r = directory.to_owned();
    r.push('/');
    r.append(name);
    r
}

/// Whether a text can name an entry of a directory.
pub open spec fn is_entry_name(name: Seq<char>) -> bool {
    name.len() > 0 && !name.contains('/')
}

/// The name of an entry, where a path is that of an entry of a directory.
pub open spec fn name_in(directory: Seq<char>, path: Seq<char>) -> Option<Seq<char>> {
    let front = if directory.len() == 0 {
        directory
    } else {
        directory + seq!['/']
    };
    if starts_with(path, front) && is_entry_name(path.skip(front.len() as int)) {
        Some(path.skip(front.len() as int))
    } else {
        None
    }
}

/// A path is that of the entry that it names.
pub proof fn lemma_name_in(directory: Seq<char>, path: Seq<char>, name: Seq<char>)
    ensures
        name_in(directory, path) == Some(name) <==> is_entry_name(name) && entry_path(
            directory,
            name,
        ) == path,
{
    let front = if directory.len() == 0 {
        directory
    } else {
        directory + seq!['/']
    };
    assert(entry_path(directory, name) =~= front + name);
    if entry_path(directory, name) == path {
        assert(path.take(front.len() as int) =~= front);
        assert(path.skip(front.len() as int) =~= name);
    }
    if name_in(directory, path) == Some(name) {
        assert(path.take(front.len() as int) + path.skip(front.len() as int) =~= path);
    }
}

/// The names of the entries of a directory.
pub open spec fn entry_names(nodes: Nodes, directory: Seq<char>) -> Set<Seq<char>> {
    Set::new(
        |name: Seq<char>| is_entry_name(name) && nodes.dom().contains(entry_path(directory, name)),
    )
}

/// The path that a path takes when a directory takes another.
pub open spec fn moved_path(from: Seq<char>, to: Seq<char>, path: Seq<char>) -> Seq<char> {
    to + path.skip(from.len() as int)
}

/// The files without those of a directory.
pub open spec fn without_tree(nodes: Nodes, path: Seq<char>) -> Nodes {
    Map::new(
        |k: Seq<char>| nodes.dom().contains(k) && !under(path, k),
        |k: Seq<char>| nodes[k],
    )
}

/// The files with a copy of some of them.
pub open spec fn with_copies(
    nodes: Nodes,
    originals: Nodes,
    from: Seq<char>,
    to: Seq<char>,
) -> Nodes {
    Map::new(
        |k: Seq<char>|
            nodes.dom().contains(k) || under(to, k) && originals.dom().contains(
                moved_path(to, from, k),
            ),
        |k: Seq<char>|
            if under(to, k) && originals.dom().contains(moved_path(to, from, k)) {
                originals[moved_path(to, from, k)]
            } else {
                nodes[k]
            },
    )
}

/// The files with a directory and those above it.
pub open spec fn with_directories(nodes: Nodes, path: Seq<char>) -> Nodes {
    Map::new(
        |k: Seq<char>| nodes.dom().contains(k) || k.len() > 0 && under(k, path),
        |k: Seq<char>|
            if nodes.dom().contains(k) {
                nodes[k]
            } else {
                NodeView::Directory
            },
    )
}

/// Whether something is there at a path: a link that leads nowhere is not.
pub open spec fn is_there(nodes: Nodes, path: Seq<char>) -> bool {
    nodes.dom().contains(path) && nodes[path] != NodeView::Link(TargetView::Missing)
}

/// Whether a node can hold others.
pub open spec fn holds_entries(node: NodeView) -> bool {
    node is Directory || node == NodeView::Link(TargetView::Directory)
}

/// Whether a directory stands at a path, or a link to one.
pub open spec fn can_be_entered(nodes: Nodes, path: Seq<char>) -> bool {
    nodes.dom().contains(path) && holds_entries(nodes[path])
}

/// The directory that a path lies in.
pub open spec fn parent_place(place: Seq<char>) -> Seq<char>
    decreases place.len(),
{
    if place.len() == 0 {
        place
    } else if place.last() == '/' {
        place.drop_last()
    } else {
        parent_place(place.drop_last())
    }
}

/// A directory has a shorter path than what lies in it, and begins it.
pub proof fn lemma_parent_is_shorter(place: Seq<char>)
    ensures
        place.len() > 0 ==> parent_place(place).len() < place.len(),
        parent_place(place).len() <= place.len(),
        parent_place(place) == place.take(parent_place(place).len() as int),
        parent_place(place).len() > 0 ==> place[parent_place(place).len() as int] == '/',
    decreases place.len(),
{
    if place.len() > 0 && place.last() != '/' {
        let front = place.drop_last();
        lemma_parent_is_shorter(front);
        let n = parent_place(front).len() as int;
        assert(front.take(n) =~= place.take(n));
    } else if place.len() > 0 {
        assert(place.drop_last() =~= place.take(place.len() - 1));
    } else {
        assert(place.take(0) =~= place);
    }
}

/// Whether a directory cannot be made, since something else stands at its path or at that of a
/// directory above it.
pub open spec fn blocked(nodes: Nodes, directory: Seq<char>) -> bool
    decreases directory.len(),
{
    if directory.len() == 0 {
        false
    } else {
        proof {
            lemma_parent_is_shorter(directory);
        }
        nodes.dom().contains(directory) && !holds_entries(nodes[directory]) || blocked(
            nodes,
            parent_place(directory),
        )
    }
}

/// Whether nothing stands below a path.
pub open spec fn nothing_below(nodes: Nodes, path: Seq<char>) -> bool {
    forall|k: Seq<char>| #[trigger] nodes.dom().contains(k) ==> k == path || !under(path, k)
}

/// Whether what lies at a path has a directory to lie in.
pub open spec fn has_room(nodes: Nodes, path: Seq<char>) -> bool {
    parent_place(path).len() == 0 || can_be_entered(nodes, parent_place(path))
}

/// Whether something can take another path: there is room for it, it does not go into itself,
/// and what stands there gives way to it. A directory gives way to another where it is empty;
/// all else gives way to what is no directory.
pub open spec fn can_move(nodes: Nodes, from: Seq<char>, to: Seq<char>) -> bool {
    &&& nodes.dom().contains(from)
    &&& !under(from, to)
    &&& has_room(nodes, to)
    &&& nodes.dom().contains(to) ==> (nodes[from] is Directory) == (nodes[to] is Directory) && (
    nodes[to] is Directory ==> nothing_below(nodes, to))
}

/// Whether all that is there lies in directories that are there.
pub open spec fn rooted(nodes: Nodes) -> bool {
    forall|k: Seq<char>| #[trigger] nodes.dom().contains(k) ==> has_room(nodes, k)
}

/// Whether a change can be made on a disk with these files.
pub open spec fn possible(nodes: Nodes, action: ActionView) -> bool {
    match action {
        ActionView::MakeDirectories(path) => !blocked(nodes, path),
        ActionView::Write { path, .. } => has_room(nodes, path) && !can_be_entered(nodes, path),
        ActionView::Rename { from, to } => can_move(nodes, from, to),
        ActionView::CopyTree { from, to } => nodes.dom().contains(from) && !nodes.dom().contains(
            to,
        ) && has_room(nodes, to),
        ActionView::RemoveTree(_) => true,
    }
}

/// The files with a copy of what stands at a path. A copy of what can be entered is a directory.
pub open spec fn copied_tree(nodes: Nodes, from: Seq<char>, to: Seq<char>) -> Nodes {
    let copied = with_copies(nodes, nodes, from, to);
    if can_be_entered(nodes, from) {
        copied.insert(to, NodeView::Directory)
    } else {
        copied
    }
}

/// What a change makes of the files.
pub open spec fn effect(nodes: Nodes, action: ActionView) -> Nodes {
    match action {
        ActionView::MakeDirectories(path) => with_directories(nodes, path),
        ActionView::Write { path, bytes } => nodes.insert(path, NodeView::File(bytes)),
        ActionView::Rename { from, to } => with_copies(
            without_tree(without_tree(nodes, from), to),
            nodes,
            from,
            to,
        ),
        ActionView::CopyTree { from, to } => copied_tree(nodes, from, to),
        ActionView::RemoveTree(path) => without_tree(nodes, path),
    }
}

/// Finds the directory that a place lies in.
pub fn parent_of(place: &str) -> (r: String)
    ensures
        r@ == parent_place(place@),
{
    let chars = chars_of(place);
    let mut end: usize = chars.len();
    assert(place@.take(end as int) =~= place@);
    while end > 0 && chars[end - 1] != '/'
        invariant
            chars@ == place@,
            end <= chars@.len(),
            parent_place(place@.take(end as int)) == parent_place(place@),
        decreases end,
    {
        assert(place@.take(end as int).drop_last() =~= place@.take(end - 1));
        end = end - 1;
    }
    if end > 0 {
        let front = slice_subrange(chars.as_slice(), 0, end - 1);
        assert(place@.take(end as int).drop_last() =~= front@);
        string_of(front)
    } else {
        assert(place@.take(0) =~= seq![]);
        let r = String::new();
        assert(r@ =~= seq![]);
        r
    }
}

/// The files of a workspace, and the changes that were made to them.
#[derive(Clone, Debug, PartialEq, Eq)]
pub struct FileTree {
    nodes: TextMap<FileNode>,
    journal: Vec<FileAction>,
}

/// The files of a workspace, by their contents.
#[verifier::ext_equal]
pub struct FilesView {
    pub nodes: Nodes,
    pub journal: Seq<ActionView>,
}

impl View for FileTree {
    type V = FilesView;

    closed spec fn view(&self) -> FilesView {
        FilesView { nodes: self.nodes@, journal: action_views(self.journal@) }
    }
}

/// The files after some changes, which are noted.
pub open spec fn performed(files: FilesView, actions: Seq<ActionView>) -> FilesView
    decreases actions.len(),
{
    if actions.len() == 0 {
        files
    } else {
        let before = performed(files, actions.drop_last());
        FilesView {
            nodes: effect(before.nodes, actions.last()),
            journal: before.journal.push(actions.last()),
        }
    }
}

/// The files once what stands at a path is removed, unless it is a file.
pub open spec fn cleared(files: FilesView, path: Seq<char>) -> FilesView {
    if files.nodes.dom().contains(path) && !(files.nodes[path] is File) {
        performed(files, seq![ActionView::RemoveTree(path)])
    } else {
        files
    }
}

/// Changes in two parts are made one after the other.
pub proof fn lemma_performed(files: FilesView, a: Seq<ActionView>, b: Seq<ActionView>)
    ensures
        performed(performed(files, a), b) == performed(files, a + b),
    decreases b.len(),
{
    if b.len() == 0 {
        assert(a + b =~= a);
    } else {
        lemma_performed(files, a, b.drop_last());
        assert((a + b).drop_last() =~= a + b.drop_last());
    }
}

/// Every change that is made is noted, and nothing else.
pub proof fn law_journal_notes_every_change(files: FilesView, actions: Seq<ActionView>)
    ensures
        performed(files, actions).journal == files.journal + actions,
    decreases actions.len(),
{
    if actions.len() == 0 {
        assert(files.journal + actions =~= files.journal);
    } else {
        law_journal_notes_every_change(files, actions.drop_last());
        assert(files.journal + actions =~= (files.journal + actions.drop_last()).push(
            actions.last(),
        ));
    }
}

impl FileTree {
    /// Whether the files are in order.
    pub closed spec fn wf(&self) -> bool {
        self.nodes.wf()
    }

    /// No files, and no changes.
    pub fn new() -> (r: FileTree)
        ensures
            r.wf(),
            r@ == (FilesView { nodes: Nodes::empty(), journal: seq![] }),
    {
        let r = FileTree { nodes: TextMap::new(), journal: Vec::new() };
        assert(r@.journal =~= seq![]);
        r
    }

    /// Notes what was observed at a path.
    pub fn observe(&mut self, path: String, node: FileNode)
        requires
            old(self).wf(),
        ensures
            final(self).wf(),
            final(self)@ == (FilesView {
                nodes: old(self)@.nodes.insert(path@, node@),
                journal: old(self)@.journal,
            }),
    {
        self.nodes.insert(path, node);
    }

    /// The changes that were made.
    pub fn journal(&self) -> (r: &[FileAction])
        ensures
            action_views(r@) == self@.journal,
    {
        self.journal.as_slice()
    }

    /// Whether something stands at a path.
    pub fn has(&self, path: &str) -> (r: bool)
        requires
            self.wf(),
        ensures
            r == self@.nodes.dom().contains(path@),
    {
        self.nodes.contains(path)
    }

    /// What stands at a path.
    pub fn node(&self, path: &str) -> (r: Option<&FileNode>)
        requires
            self.wf(),
        ensures
            match r {
                Some(n) => self@.nodes.dom().contains(path@) && n@ == self@.nodes[path@],
                None => !self@.nodes.dom().contains(path@),
            },
    {
        self.nodes.get(path)
    }

    /// Whether something is there at a path: a link that leads nowhere is not.
    pub fn is_there(&self, path: &str) -> (r: bool)
        requires
            self.wf(),
        ensures
            r == is_there(self@.nodes, path@),
    {
        match self.nodes.get(path) {
            None => false,
            Some(FileNode::Link(LinkTarget::Missing)) => false,
            Some(_) => true,
        }
    }

    /// Whether a directory cannot be made, since something else stands in the way.
    pub fn is_blocked(&self, directory: &str) -> (r: bool)
        requires
            self.wf(),
        ensures
            r == blocked(self@.nodes, directory@),
        decreases directory@.len(),
    {
        if directory.is_empty() {
            return false;
        }
        match self.nodes.get(directory) {
            None => {},
            Some(FileNode::Directory) => {},
            Some(FileNode::Link(LinkTarget::Directory)) => {},
            Some(_) => {
                return true;
            },
        }
        proof {
            lemma_parent_is_shorter(directory@);
        }
        self.is_blocked(parent_of(directory).as_str())
    }

    /// Whether a directory stands at a path, or a link to one.
    pub fn can_be_entered(&self, path: &str) -> (r: bool)
        requires
            self.wf(),
        ensures
            r == can_be_entered(self@.nodes, path@),
    {
        match self.nodes.get(path) {
            Some(FileNode::Directory) => true,
            Some(FileNode::Link(LinkTarget::Directory)) => true,
            _ => false,
        }
    }

    /// Whether a directory stands at a path.
    pub fn is_directory(&self, path: &str) -> (r: bool)
        requires
            self.wf(),
        ensures
            r == is_directory(self@.nodes, path@),
    {
        match self.nodes.get(path) {
            Some(FileNode::Directory) => true,
            _ => false,
        }
    }

    /// The bytes of the file at a path, or of the file that a link there leads to.
    pub fn file(&self, path: &str) -> (r: Option<&[u8]>)
        requires
            self.wf(),
        ensures
            match r {
                Some(bytes) => file_bytes(self@.nodes, path@) == Some(bytes@),
                None => file_bytes(self@.nodes, path@) is None,
            },
    {
        match self.nodes.get(path) {
            Some(FileNode::File(bytes)) => Some(bytes.as_slice()),
            Some(FileNode::Link(LinkTarget::File(bytes))) => Some(bytes.as_slice()),
            _ => None,
        }
    }

    /// Whether nothing stands below a path.
    pub fn is_empty_below(&self, path: &str) -> (r: bool)
        requires
            self.wf(),
        ensures
            r == nothing_below(self@.nodes, path@),
    {
        let directory = chars_of(path);
        let ghost nodes = self@.nodes;
        proof {
            self.nodes.lemma_entries();
        }
        for i in 0..self.nodes.entries.len()
            invariant
                nodes == self@.nodes,
                directory@ == path@,
                forall|i: int|
                    0 <= i < self.nodes.entries@.len() ==> nodes.dom().contains(
                        (#[trigger] self.nodes.entries@[i]).0@,
                    ),
                forall|j: int|
                    0 <= j < i ==> (#[trigger] self.nodes.entries@[j]).0@ == path@ || !under(
                        path@,
                        self.nodes.entries@[j].0@,
                    ),
        {
            let key = chars_of(self.nodes.entries[i].0.as_str());
            if key.len() != directory.len() && lies_under(directory.as_slice(), key.as_slice()) {
                assert(nodes.dom().contains(self.nodes.entries@[i as int].0@));
                return false;
            }
        }
        proof {
            assert forall|k: Seq<char>| #[trigger] nodes.dom().contains(k) implies k == path@
                || !under(path@, k) by {
                let j = choose|j: int|
                    0 <= j < self.nodes.entries@.len() && (#[trigger] self.nodes.entries@[j]).0@
                        == k;
                assert(self.nodes.entries@[j].0@ == k);
            }
        }
        true
    }

    /// Whether what lies at a path has a directory to lie in.
    pub fn has_room(&self, path: &str) -> (r: bool)
        requires
            self.wf(),
        ensures
            r == has_room(self@.nodes, path@),
    {
        let parent = parent_of(path);
        parent.as_str().is_empty() || self.can_be_entered(parent.as_str())
    }

    /// Whether something can take another path.
    pub fn can_move(&self, from: &str, to: &str) -> (r: bool)
        requires
            self.wf(),
        ensures
            r == can_move(self@.nodes, from@, to@),
    {
        let moved_is_directory = match self.nodes.get(from) {
            None => {
                return false;
            },
            Some(FileNode::Directory) => true,
            Some(_) => false,
        };
        if lies_under(chars_of(from).as_slice(), chars_of(to).as_slice()) {
            return false;
        }
        if !self.has_room(to) {
            return false;
        }
        match self.nodes.get(to) {
            None => true,
            Some(FileNode::Directory) => moved_is_directory && self.is_empty_below(to),
            Some(_) => !moved_is_directory,
        }
    }

    /// Removes what stands at a path, unless it is a file.
    pub fn clear(&mut self, path: &str)
        requires
            old(self).wf(),
        ensures
            final(self).wf(),
            final(self)@ == cleared(old(self)@, path@),
    {
        let remove = match self.nodes.get(path) {
            None => false,
            Some(FileNode::File(_)) => false,
            Some(_) => true,
        };
        if remove {
            self.perform(FileAction::RemoveTree(path.to_owned()));
        }
    }

    /// Makes a change and notes it.
    pub fn perform(&mut self, action: FileAction)
        requires
            old(self).wf(),
        ensures
            final(self).wf(),
            final(self)@ == performed(old(self)@, seq![action@]),
    {
        let ghost before = self@;
        let ghost done = action@;
        proof {
            let one = seq![done];
            assert(one.drop_last() =~= seq![]);
            assert(one.last() == done);
            assert(performed(before, one.drop_last()) == before);
        }
        match &action {
            FileAction::MakeDirectories(path) => {
                make_directories(&mut self.nodes, path.as_str());
            },
            FileAction::Write { path, bytes } => {
                self.nodes.insert(path.clone(), FileNode::File(copy_bytes(bytes.as_slice())));
            },
            FileAction::Rename { from, to } => {
                let rest = remove_tree(&self.nodes, from.as_str());
                let free = remove_tree(&rest, to.as_str());
                self.nodes = copy_tree(free, &self.nodes, from.as_str(), to.as_str());
            },
            FileAction::CopyTree { from, to } => {
                let entered = self.can_be_entered(from.as_str());
                let base = copy_nodes(&self.nodes);
                let mut copied = copy_tree(base, &self.nodes, from.as_str(), to.as_str());
                if entered {
                    copied.insert(to.clone(), FileNode::Directory);
                }
                self.nodes = copied;
            },
            FileAction::RemoveTree(path) => {
                self.nodes = remove_tree(&self.nodes, path.as_str());
            },
        }
        let ghost earlier = self.journal@;
        self.journal.push(action);
        assert(action_views(self.journal@) =~= action_views(earlier).push(done));
    }

    /// The names of the entries of a directory, in ascending order.
    pub fn names_in(&self, directory: &str) -> (r: Vec<String>)
        requires
            self.wf(),
        ensures
            crate::text::texts(r@) == sorted_texts(entry_names(self@.nodes, directory@)),
    {
        let mut front = chars_of(directory);
        if front.len() > 0 {
            front.push('/');
        }
        let mut names = TextSet::new();
        proof {
            self.nodes.lemma_entries();
            assert(front@ =~= if directory@.len() == 0 {
                directory@
            } else {
                directory@ + seq!['/']
            });
        }
        for i in 0..self.nodes.entries.len()
            invariant
                names.wf(),
                front@ == (if directory@.len() == 0 {
                    directory@
                } else {
                    directory@ + seq!['/']
                }),
                forall|n: Seq<char>| #[trigger]
                    names@.contains(n) <==> exists|k: int|
                        0 <= k < i && name_in(
                            directory@,
                            (#[trigger] self.nodes.entries@[k]).0@,
                        ) == Some(n),
        {
            let path = chars_of(self.nodes.entries[i].0.as_str());
            let ghost before = names@;
            let ghost key = self.nodes.entries@[i as int].0@;
            if has_prefix(path.as_slice(), front.as_slice()) {
                let rest = slice_subrange(path.as_slice(), front.len(), path.len());
                assert(rest@ =~= path@.skip(front@.len() as int));
                let slash = find_char(rest, '/');
                proof {
                    lemma_index_of(rest@, '/');
                }
                if rest.len() > 0 && slash == rest.len() {
                    names.insert(string_of(rest));
                    assert(name_in(directory@, key) == Some(rest@));
                } else {
                    assert(name_in(directory@, key) is None);
                }
            }
            assert forall|n: Seq<char>| #[trigger] names@.contains(n) <==> exists|k: int|
                0 <= k < i + 1 && name_in(directory@, (#[trigger] self.nodes.entries@[k]).0@)
                    == Some(n) by {
                if names@.contains(n) {
                    if name_in(directory@, key) == Some(n) {
                        assert(name_in(directory@, self.nodes.entries@[i as int].0@) == Some(n));
                    } else {
                        assert(before.contains(n));
                        let k = choose|k: int|
                            0 <= k < i && name_in(
                                directory@,
                                (#[trigger] self.nodes.entries@[k]).0@,
                            ) == Some(n);
                        assert(0 <= k < i + 1);
                    }
                }
                if exists|k: int|
                    0 <= k < i + 1 && name_in(directory@, (#[trigger] self.nodes.entries@[k]).0@)
                        == Some(n) {
                    let k = choose|k: int|
                        0 <= k < i + 1 && name_in(
                            directory@,
                            (#[trigger] self.nodes.entries@[k]).0@,
                        ) == Some(n);
                    if k < i {
                        assert(before.contains(n));
                    }
                }
            }
        }
        proof {
            let all = entry_names(self@.nodes, directory@);
            assert forall|n: Seq<char>| names@.contains(n) <==> all.contains(n) by {
                if names@.contains(n) {
                    let k = choose|k: int|
                        0 <= k < self.nodes.entries@.len() && name_in(
                            directory@,
                            (#[trigger] self.nodes.entries@[k]).0@,
                        ) == Some(n);
                    lemma_name_in(directory@, self.nodes.entries@[k].0@, n);
                }
                if all.contains(n) {
                    let path = entry_path(directory@, n);
                    assert(self.nodes@.dom().contains(path));
                    let k = choose|k: int|
                        0 <= k < self.nodes.entries@.len() && (#[trigger] self.nodes.entries@[k]).0@
                            == path;
                    lemma_name_in(directory@, path, n);
                }
            }
            assert(names@ =~= all);
        }
        names.to_texts()
    }
}

/// The files with the directories above a path that are shorter than a bound.
spec fn with_short_directories(nodes: Nodes, path: Seq<char>, bound: int) -> Nodes {
    Map::new(
        |k: Seq<char>| nodes.dom().contains(k) || 0 < k.len() < bound && under(k, path),
        |k: Seq<char>|
            if nodes.dom().contains(k) {
                nodes[k]
            } else {
                NodeView::Directory
            },
    )
}

fn make_directories(nodes: &mut TextMap<FileNode>, path: &str)
    requires
        old(nodes).wf(),
    ensures
        final(nodes).wf(),
        final(nodes)@ == with_directories(old(nodes)@, path@),
{
    let ghost start = nodes@;
    let chars = chars_of(path);
    let ghost p = path@;
    assert(nodes@ =~= with_short_directories(start, p, 0));
    for i in 0..chars.len()
        invariant
            chars@ == p,
            nodes.wf(),
            nodes@ == with_short_directories(start, p, i as int),
    {
        let front = slice_subrange(chars.as_slice(), 0, i);
        proof {
            assert(front@ =~= p.take(i as int));
            if p[i as int] == '/' {
                assert(p.take(i + 1) =~= p.take(i as int) + seq!['/']);
            }
            assert forall|k: Seq<char>| k.len() == i && under(k, p) implies k == p.take(i as int)
                && p[i as int] == '/' by {
                let whole = k + seq!['/'];
                assert(p.take(whole.len() as int)[i as int] == '/');
                assert(k =~= p.take(i as int)) by {
                    assert forall|j: int| 0 <= j < i implies k[j] == p[j] by {
                        assert(p.take(whole.len() as int)[j] == whole[j]);
                    }
                }
            }
        }
        if i > 0 && chars[i] == '/' {
            let key = string_of(front);
            if !nodes.contains(key.as_str()) {
                nodes.insert(key, FileNode::Directory);
            }
            proof {
                assert(under(p.take(i as int), p));
                assert(nodes@ =~= with_short_directories(start, p, i + 1));
            }
        } else {
            assert(nodes@ =~= with_short_directories(start, p, i + 1));
        }
    }
    if chars.len() > 0 && !nodes.contains(path) {
        nodes.insert(path.to_owned(), FileNode::Directory);
    }
    proof {
        assert forall|k: Seq<char>| under(k, p) implies k.len() < p.len() || k == p by {
            if k != p {
                assert((k + seq!['/']).len() <= p.len());
            }
        }
        assert(nodes@ =~= with_directories(start, p));
    }
}

fn copy_nodes(nodes: &TextMap<FileNode>) -> (r: TextMap<FileNode>)
    requires
        nodes.wf(),
    ensures
        r.wf(),
        r@ == nodes@,
{
    let mut entries: Vec<(String, FileNode)> = Vec::new();
    for i in 0..nodes.entries.len()
        invariant
            entries@.len() == i,
            forall|k: int|
                0 <= k < i ==> (#[trigger] entries@[k]).0@ == nodes.entries@[k].0@ && entries@[k].1@
                    == nodes.entries@[k].1@,
    {
        entries.push((nodes.entries[i].0.clone(), nodes.entries[i].1.copy()));
    }
    let r = TextMap { entries };
    assert(r.pairs() =~= nodes.pairs());
    r
}

fn remove_tree(nodes: &TextMap<FileNode>, path: &str) -> (r: TextMap<FileNode>)
    requires
        nodes.wf(),
    ensures
        r.wf(),
        r@ == without_tree(nodes@, path@),
{
    let directory = chars_of(path);
    let mut r: TextMap<FileNode> = TextMap::new();
    proof {
        nodes.lemma_entries();
    }
    for i in 0..nodes.entries.len()
        invariant
            nodes.wf(),
            directory@ == path@,
            r.wf(),
            forall|i: int|
                0 <= i < nodes.entries@.len() ==> nodes@.dom().contains(
                    (#[trigger] nodes.entries@[i]).0@,
                ) && nodes@[nodes.entries@[i].0@] == nodes.entries@[i].1@,
            forall|k: Seq<char>| #[trigger]
                r@.dom().contains(k) ==> nodes@.dom().contains(k) && !under(path@, k) && r@[k]
                    == nodes@[k],
            forall|j: int|
                0 <= j < i && !under(path@, (#[trigger] nodes.entries@[j]).0@)
                    ==> r@.dom().contains(nodes.entries@[j].0@),
    {
        let key = chars_of(nodes.entries[i].0.as_str());
        if !lies_under(directory.as_slice(), key.as_slice()) {
            r.insert(nodes.entries[i].0.clone(), nodes.entries[i].1.copy());
        }
    }
    proof {
        assert forall|k: Seq<char>| #[trigger] nodes@.dom().contains(k) && !under(
            path@,
            k,
        ) implies r@.dom().contains(k) by {
            let j = choose|j: int|
                0 <= j < nodes.entries@.len() && (#[trigger] nodes.entries@[j]).0@ == k;
            assert(r@.dom().contains(nodes.entries@[j].0@));
        }
        assert(r@ =~= without_tree(nodes@, path@));
    }
    r
}

proof fn lemma_moved_path(from: Seq<char>, to: Seq<char>, k: Seq<char>)
    requires
        under(from, k),
    ensures
        under(to, moved_path(from, to, k)),
        moved_path(to, from, moved_path(from, to, k)) == k,
{
    let rest = k.skip(from.len() as int);
    let m = moved_path(from, to, k);
    assert(m.skip(to.len() as int) =~= rest);
    if k == from {
        assert(rest =~= seq![]);
        assert(m =~= to);
    } else {
        let front = from + seq!['/'];
        assert(k.take(front.len() as int)[from.len() as int] == '/');
        assert(rest[0] == '/');
        assert(m.take((to.len() + 1) as int) =~= to + seq!['/']);
    }
    assert(k =~= from + rest) by {
        if k != from {
            let front = from + seq!['/'];
            assert forall|i: int| 0 <= i < from.len() implies k[i] == from[i] by {
                assert(k.take(front.len() as int)[i] == front[i]);
            }
        }
    }
}

fn copy_tree(
    base: TextMap<FileNode>,
    originals: &TextMap<FileNode>,
    from: &str,
    to: &str,
) -> (r: TextMap<FileNode>)
    requires
        base.wf(),
        originals.wf(),
    ensures
        r.wf(),
        r@ == with_copies(base@, originals@, from@, to@),
{
    let source = chars_of(from);
    let target = chars_of(to);
    let mut r = base;
    proof {
        originals.lemma_entries();
    }
    for i in 0..originals.entries.len()
        invariant
            originals.wf(),
            source@ == from@,
            target@ == to@,
            r.wf(),
            forall|i: int|
                0 <= i < originals.entries@.len() ==> originals@.dom().contains(
                    (#[trigger] originals.entries@[i]).0@,
                ) && originals@[originals.entries@[i].0@] == originals.entries@[i].1@,
            forall|k: Seq<char>| #[trigger]
                r@.dom().contains(k) ==> (base@.dom().contains(k) && r@[k] == base@[k]) || (under(
                    to@,
                    k,
                ) && originals@.dom().contains(moved_path(to@, from@, k)) && r@[k]
                    == originals@[moved_path(to@, from@, k)]),
            forall|k: Seq<char>| #[trigger] base@.dom().contains(k) ==> r@.dom().contains(k),
            forall|j: int|
                0 <= j < i && under(from@, (#[trigger] originals.entries@[j]).0@)
                    ==> r@.dom().contains(moved_path(from@, to@, originals.entries@[j].0@))
                    && r@[moved_path(from@, to@, originals.entries@[j].0@)]
                    == originals.entries@[j].1@,
    {
        let key = chars_of(originals.entries[i].0.as_str());
        if lies_under(source.as_slice(), key.as_slice()) {
            proof {
                let k = originals.entries@[i as int].0@;
                lemma_moved_path(from@, to@, k);
                assert forall|j: int|
                    0 <= j < i && under(from@, (#[trigger] originals.entries@[j]).0@)
                        && moved_path(from@, to@, originals.entries@[j].0@) == moved_path(
                        from@,
                        to@,
                        k,
                    ) implies originals.entries@[j].0@ == k by {
                    lemma_moved_path(from@, to@, originals.entries@[j].0@);
                }
            }
            let rest = slice_subrange(key.as_slice(), source.len(), key.len());
            let mut path = to.to_owned();
            path.append(string_of(rest).as_str());
            assert(rest@ =~= key@.skip(from@.len() as int));
            assert(path@ =~= moved_path(from@, to@, key@));
            r.insert(path, originals.entries[i].1.copy());
        }
    }
    proof {
        let all = with_copies(base@, originals@, from@, to@);
        assert forall|k: Seq<char>|
            under(to@, k) && originals@.dom().contains(#[trigger] moved_path(to@, from@, k)) implies
            r@.dom().contains(k) && r@[k] == originals@[moved_path(to@, from@, k)] by {
            let o = moved_path(to@, from@, k);
            lemma_moved_path(to@, from@, k);
            let j = choose|j: int|
                0 <= j < originals.entries@.len() && (#[trigger] originals.entries@[j]).0@ == o;
            assert(under(from@, originals.entries@[j].0@));
        }
        assert(r@ =~= all);
    }
    r
}

/// Whether a directory stands at a path.
pub open spec fn is_directory(nodes: Nodes, path: Seq<char>) -> bool {
    nodes.dom().contains(path) && nodes[path] is Directory
}

/// The bytes of the file at a path, or of the file that a link there leads to.
pub open spec fn file_bytes(nodes: Nodes, path: Seq<char>) -> Option<Seq<u8>> {
    if nodes.dom().contains(path) {
        match nodes[path] {
            NodeView::File(bytes) => Some(bytes),
            NodeView::Link(TargetView::File(bytes)) => Some(bytes),
            _ => None,
        }
    } else {
        None
    }
}

/// The text of bytes in UTF-8: `std::str::from_utf8`, which refuses what is not valid.
#[verifier::external_body]
pub(crate) fn utf8_text(bytes: &[u8]) -> (r: Option<String>)
    ensures
        match r {
            Some(text) => valid_utf8(bytes@) && text@ == decode_utf8(bytes@),
            None => !valid_utf8(bytes@),
        },
{
    std::str::from_utf8(bytes).ok().map(str::to_owned)
}

/// What lies below a directory.
pub open spec fn below(nodes: Nodes, directory: Seq<char>) -> Set<Seq<char>> {
    nodes.dom().filter(|k: Seq<char>| under(directory, k) && k != directory)
}

/// An entry of a directory lies below it, and less lies below the entry.
pub proof fn lemma_below_shrinks(nodes: Nodes, directory: Seq<char>, path: Seq<char>)
    requires
        nodes.dom().finite(),
        below(nodes, directory).contains(path),
    ensures
        below(nodes, path).len() < below(nodes, directory).len(),
{
    let a = below(nodes, path);
    let b = below(nodes, directory);
    assert forall|k: Seq<char>| a.contains(k) implies b.remove(path).contains(k) by {
        lemma_under_transitive(directory, path, k);
        assert(starts_with(k, path + seq!['/']));
        assert(k.len() > path.len());
        assert(path.len() >= directory.len());
    }
    assert(a.subset_of(b.remove(path)));
    vstd::set_lib::lemma_len_subset(a, b.remove(path));
}

/// What lies under what lies under a directory lies under it.
pub proof fn lemma_under_transitive(a: Seq<char>, b: Seq<char>, c: Seq<char>)
    requires
        under(a, b),
        under(b, c),
    ensures
        under(a, c),
{
    if b != a && c != b {
        let x = a + seq!['/'];
        let y = b + seq!['/'];
        assert(c.take(x.len() as int) =~= x) by {
            assert forall|i: int| 0 <= i < x.len() implies c[i] == x[i] by {
                assert(c.take(y.len() as int)[i] == y[i]);
                assert(b.take(x.len() as int)[i] == x[i]);
            }
        }
    }
}

/// An entry of a directory that is there lies below the directory.
pub proof fn lemma_entry_below(nodes: Nodes, directory: Seq<char>, name: Seq<char>)
    requires
        directory.len() > 0,
        nodes.dom().contains(entry_path(directory, name)),
    ensures
        below(nodes, directory).contains(entry_path(directory, name)),
{
    let path = entry_path(directory, name);
    let front = directory + seq!['/'];
    assert(path.take(front.len() as int) =~= front);
}

/// A directory has finitely many entries.
pub proof fn lemma_entry_names_finite(nodes: Nodes, directory: Seq<char>)
    requires
        nodes.dom().finite(),
    ensures
        entry_names(nodes, directory).finite(),
{
    let names = entry_names(nodes, directory);
    let named = |path: Seq<char>|
        match name_in(directory, path) {
            Some(n) => n,
            None => seq![],
        };
    let image = nodes.dom().map(named);
    nodes.dom().lemma_map_finite(named);
    assert forall|n: Seq<char>| names.contains(n) implies image.contains(n) by {
        let path = entry_path(directory, n);
        lemma_name_in(directory, path, n);
        assert(nodes.dom().contains(path) && named(path) == n);
    }
    vstd::set_lib::lemma_len_subset(names, image);
}

/// What lies below a directory, each entry in the order of the names and followed by what
/// lies below it.
pub open spec fn tree_order(nodes: Nodes, directory: Seq<char>) -> Seq<Seq<char>>
    decreases below(nodes, directory).len(), 1int, 0nat,
{
    tree_order_of(nodes, directory, sorted_texts(entry_names(nodes, directory)))
}

/// The given entries of a directory, each followed by what lies below it.
pub open spec fn tree_order_of(
    nodes: Nodes,
    directory: Seq<char>,
    names: Seq<Seq<char>>,
) -> Seq<Seq<char>>
    decreases below(nodes, directory).len(), 0int, names.len(),
{
    if names.len() == 0 {
        seq![]
    } else {
        let path = entry_path(directory, names.last());
        let inside = if nodes.dom().finite() && below(nodes, directory).contains(path)
            && is_directory(nodes, path) {
            proof {
                lemma_below_shrinks(nodes, directory, path);
            }
            tree_order(nodes, path)
        } else {
            seq![]
        };
        tree_order_of(nodes, directory, names.drop_last()).push(path) + inside
    }
}

/// A map that is kept as a list of entries is finite.
pub proof fn lemma_finite<A>(s: Seq<(Seq<char>, A)>)
    ensures
        crate::order::map_of(s).dom().finite(),
    decreases s.len(),
{
    if s.len() > 0 {
        lemma_finite(s.drop_last());
    }
}

impl FileTree {
    /// The observed files are finitely many.
    pub proof fn lemma_nodes_finite(&self)
        ensures
            self@.nodes.dom().finite(),
    {
        lemma_finite(self.nodes.pairs());
    }

    /// What lies below a directory, each entry in the order of the names and followed by
    /// what lies below it.
    pub fn tree_below(&self, directory: &str) -> (r: Vec<String>)
        requires
            self.wf(),
            directory@.len() > 0,
        ensures
            crate::text::texts(r@) == tree_order(self@.nodes, directory@),
        decreases below(self@.nodes, directory@).len(),
    {
        proof {
            self.lemma_nodes_finite();
        }
        let names = self.names_in(directory);
        let ghost all = crate::text::texts(names@);
        let mut r: Vec<String> = Vec::new();
        assert(crate::text::texts(r@) =~= seq![]);
        for i in 0..names.len()
            invariant
                self.wf(),
                directory@.len() > 0,
                self@.nodes.dom().finite(),
                all == crate::text::texts(names@),
                crate::text::texts(r@) == tree_order_of(
                    self@.nodes,
                    directory@,
                    all.take(i as int),
                ),
        {
            let path = path_in(directory, names[i].as_str());
            proof {
                let next = all.take(i + 1);
                assert(next.drop_last() =~= all.take(i as int));
                assert(next.last() == names@[i as int]@);
            }
            let inside = if self.is_directory(path.as_str()) {
                proof {
                    lemma_entry_below(self@.nodes, directory@, names@[i as int]@);
                    lemma_below_shrinks(self@.nodes, directory@, path@);
                }
                self.tree_below(path.as_str())
            } else {
                Vec::new()
            };
            let ghost before = r@;
            let ghost inner = crate::text::texts(inside@);
            let ghost p = path@;
            r.push(path);
            assert(crate::text::texts(r@) =~= crate::text::texts(before).push(p));
            let mut rest = inside;
            let ghost middle = r@;
            let ghost more = rest@;
            r.append(&mut rest);
            assert(crate::text::texts(r@) =~= crate::text::texts(middle) + crate::text::texts(more));
        }
        assert(all.take(all.len() as int) =~= all);
        r
    }
}

/// The text of bytes, with a replacement character for what is not valid UTF-8.
pub uninterp spec fn lossy_text(bytes: Seq<u8>) -> Seq<char>;

/// The text of bytes: `String::from_utf8_lossy`, which leaves valid UTF-8 as it is and puts
/// replacement characters elsewhere.
#[verifier::external_body]
pub(crate) fn text_lossy(bytes: &[u8]) -> (r: String)
    ensures
        r@ == lossy_text(bytes@),
        valid_utf8(bytes@) ==> r@ == decode_utf8(bytes@),
{
    String::from_utf8_lossy(bytes).into_owned()
}

/// All files of a workspace: the given entries of its root, each followed by what lies below
/// it.
pub open spec fn root_order_of(nodes: Nodes, names: Seq<Seq<char>>) -> Seq<Seq<char>>
    decreases names.len(),
{
    if names.len() == 0 {
        seq![]
    } else {
        let path = names.last();
        let inside = if is_directory(nodes, path) {
            tree_order(nodes, path)
        } else {
            seq![]
        };
        root_order_of(nodes, names.drop_last()).push(path) + inside
    }
}

/// All files of a workspace, each entry in the order of the names and followed by what lies
/// below it.
pub open spec fn root_order(nodes: Nodes) -> Seq<Seq<char>> {
    root_order_of(nodes, sorted_texts(entry_names(nodes, seq![])))
}

impl FileTree {
    /// All files, each entry in the order of the names and followed by what lies below it.
    pub fn all_paths(&self) -> (r: Vec<String>)
        requires
            self.wf(),
        ensures
            crate::text::texts(r@) == root_order(self@.nodes),
    {
        let names = self.names_in("");
        let ghost all = crate::text::texts(names@);
        let mut r: Vec<String> = Vec::new();
        proof {
            reveal_strlit("");
            assert(""@ =~= seq![]);
            self.lemma_nodes_finite();
            lemma_entry_names_finite(self@.nodes, seq![]);
            crate::order::lemma_sorted_texts(entry_names(self@.nodes, seq![]));
            assert forall|k: int| 0 <= k < all.len() implies (#[trigger] all[k]).len() > 0 by {
                assert(sorted_texts(entry_names(self@.nodes, seq![])).contains(all[k]));
                assert(entry_names(self@.nodes, seq![]).contains(all[k]));
            }
            assert(all.take(0) =~= seq![]);
            assert(crate::text::texts(r@) =~= seq![]);
        }
        for i in 0..names.len()
            invariant
                self.wf(),
                all == crate::text::texts(names@),
                forall|k: int| 0 <= k < all.len() ==> (#[trigger] all[k]).len() > 0,
                crate::text::texts(r@) == root_order_of(self@.nodes, all.take(i as int)),
        {
            proof {
                assert(all.take(i + 1).drop_last() =~= all.take(i as int));
                assert(all.take(i + 1).last() == names@[i as int]@);
                assert(all[i as int] == names@[i as int]@);
            }
            let ghost before = r@;
            let name = names[i].as_str();
            r.push(name.to_owned());
            assert(crate::text::texts(r@) =~= crate::text::texts(before).push(name@));
            if self.is_directory(name) {
                let mut inside = self.tree_below(name);
                let ghost middle = r@;
                let ghost more = inside@;
                r.append(&mut inside);
                assert(crate::text::texts(r@) =~= crate::text::texts(middle) + crate::text::texts(
                    more,
                ));
            } else {
                assert(crate::text::texts(r@) =~= crate::text::texts(r@) + Seq::<
                    Seq<char>,
                >::empty());
            }
        }
        assert(all.take(all.len() as int) =~= all);
        r
    }
}

} // verus!
