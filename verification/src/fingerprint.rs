//! Fingerprints of files and of directories, by which a change is noticed.
use crate::error::{invalid_format, WorkspaceError, WorkspaceErrorView};
use crate::files::{can_be_entered, is_directory, tree_order, FileNode, FileTree, NodeView, Nodes};
use crate::message::concat2;
use crate::number::{hex, hex_value, lemma_hex_value, push_hex};
use crate::paths::ResourcePath;
use crate::text::{chars_of, string_of, texts};
use std::collections::hash_map::DefaultHasher;
use std::hash::Hasher;
use vstd::bytes::{spec_u64_to_le_bytes, u64_to_le_bytes};
use vstd::prelude::*;
use vstd::slice::slice_subrange;
use vstd::std_specs::hash::DefaultHasherAdditionalSpecFns;
use vstd::string::*;
use vstd::utf8::encode_utf8;

verus! {

/// The most files that an operation on a directory goes through.
pub const MAX_MUTATION_FILES: usize = 100_000;

/// The most bytes that an operation on a directory goes through.
pub const MAX_MUTATION_BYTES: u64 = 268_435_456;

/// A fingerprint of the bytes of a file.
#[derive(Clone, Copy, Debug, PartialEq, Eq, Structural)]
pub struct FileFingerprint(u64);

/// What is hashed of some bytes: how many they are, and the bytes.
pub open spec fn hashed_bytes(bytes: Seq<u8>) -> Seq<Seq<u8>> {
    seq![spec_u64_to_le_bytes(bytes.len() as u64), bytes]
}

/// The hash of some bytes.
pub open spec fn file_digest(bytes: Seq<u8>) -> u64 {
    DefaultHasher::spec_finish(hashed_bytes(bytes))
}

impl FileFingerprint {
    /// The number that the fingerprint is.
    pub closed spec fn number(self) -> u64 {
        self.0
    }

    /// Fingerprints of the same number are the same.
    pub proof fn lemma_same(a: FileFingerprint, b: FileFingerprint)
        ensures
            a == b <==> a.number() == b.number(),
    {
    }

    /// The fingerprint of some bytes.
    pub fn from_bytes(bytes: &[u8]) -> (r: FileFingerprint)
        ensures
            r.number() == file_digest(bytes@),
    {
        let mut hasher = DefaultHasher::new();
        let length = u64_to_le_bytes(bytes.len() as u64);
        hasher.write(length.as_slice());
        hasher.write(bytes);
        assert(hasher@ =~= hashed_bytes(bytes@));
        FileFingerprint(hasher.finish())
    }

    /// The fingerprint as sixteen hexadecimal digits.
    pub fn to_hex(self) -> (r: String)
        ensures
            r@ == hex(self.number() as int, 16),
    {
        let mut r = String::new();
        push_hex(&mut r, self.0, 16);
        assert(r@ =~= hex(self.0 as int, 16));
        r
    }
}

/// The hexadecimal digits of a fingerprint are sixteen and stand for its number.
pub proof fn law_hex_stands_for_the_fingerprint(f: FileFingerprint)
    ensures
        hex(f.number() as int, 16).len() == 16,
        hex_value(hex(f.number() as int, 16)) == f.number(),
{
    let bound: int = 0x1_0000_0000_0000_0000;
    assert(vstd::arithmetic::power::pow(16, 16) == bound) by {
        reveal_with_fuel(vstd::arithmetic::power::pow, 17);
    }
    lemma_hex_value(f.number() as int, 16, bound);
}

/// A fingerprint of the names and the contents of all that lies below a directory.
#[derive(Clone, Copy, Debug, PartialEq, Eq, Structural)]
pub struct DirectoryFingerprint(u64);

impl DirectoryFingerprint {
    /// The number that the fingerprint is.
    pub closed spec fn number(self) -> u64 {
        self.0
    }

    /// Fingerprints of the same number are the same.
    pub proof fn lemma_same(a: DirectoryFingerprint, b: DirectoryFingerprint)
        ensures
            a == b <==> a.number() == b.number(),
    {
    }
}

/// How far going through a directory has come.
#[verifier::ext_equal]
pub struct Survey {
    pub hashed: Seq<Seq<u8>>,
    pub files: nat,
    pub bytes: nat,
}

/// The refusal of a directory with too many files.
pub open spec fn too_many_files() -> WorkspaceErrorView {
    WorkspaceErrorView::InvalidFormat("workspace mutation exceeds 100000 files"@)
}

/// The text of a path below a directory, without the directory.
pub open spec fn path_below(directory: Seq<char>, path: Seq<char>) -> Seq<char> {
    path.skip(directory.len() as int + 1)
}

/// The sum of two numbers of bytes, or the greatest number.
pub open spec fn saturated(a: nat, b: nat) -> nat {
    if a + b > u64::MAX {
        u64::MAX as nat
    } else {
        a + b
    }
}

/// One more entry of a directory is gone through.
pub open spec fn survey_entry(
    nodes: Nodes,
    root: Seq<char>,
    directory: Seq<char>,
    path: Seq<char>,
    s: Survey,
) -> Result<Survey, WorkspaceErrorView> {
    let named = s.hashed.push(encode_utf8(path_below(directory, path)));
    match nodes[path] {
        NodeView::Link(_) => Err(WorkspaceErrorView::SymbolicLink(crate::paths::joined(root, path))),
        NodeView::Directory => Ok(Survey { hashed: named.push(seq![0u8]), ..s }),
        NodeView::File(bytes) => if s.files + 1 > MAX_MUTATION_FILES {
            Err(too_many_files())
        } else if saturated(s.bytes, bytes.len()) > MAX_MUTATION_BYTES {
            Err(
                WorkspaceErrorView::FileTooLarge {
                    path: crate::paths::joined(root, directory),
                    maximum_bytes: MAX_MUTATION_BYTES,
                    observed_bytes: saturated(s.bytes, bytes.len()) as u64,
                },
            )
        } else {
            Ok(
                Survey {
                    hashed: named.push(seq![1u8]) + hashed_bytes(bytes),
                    files: s.files + 1,
                    bytes: saturated(s.bytes, bytes.len()),
                },
            )
        },
    }
}

/// Entries of a directory are gone through.
pub open spec fn survey(
    nodes: Nodes,
    root: Seq<char>,
    directory: Seq<char>,
    list: Seq<Seq<char>>,
) -> Result<Survey, WorkspaceErrorView>
    decreases list.len(),
{
    if list.len() == 0 {
        Ok(Survey { hashed: seq![], files: 0, bytes: 0 })
    } else {
        match survey(nodes, root, directory, list.drop_last()) {
            Err(e) => Err(e),
            Ok(s) => survey_entry(nodes, root, directory, list.last(), s),
        }
    }
}

proof fn lemma_survey_error(
    nodes: Nodes,
    root: Seq<char>,
    directory: Seq<char>,
    list: Seq<Seq<char>>,
    k: int,
)
    requires
        0 <= k <= list.len(),
        survey(nodes, root, directory, list.take(k)) is Err,
    ensures
        survey(nodes, root, directory, list) == survey(nodes, root, directory, list.take(k)),
    decreases list.len() - k,
{
    if k < list.len() {
        assert(list.take(k + 1).drop_last() =~= list.take(k));
        lemma_survey_error(nodes, root, directory, list, k + 1);
    } else {
        assert(list.take(k) =~= list);
    }
}

/// The hash of a directory of a workspace, or why it has none.
pub open spec fn directory_digest(nodes: Nodes, root: Seq<char>, directory: Seq<char>) -> Result<
    u64,
    WorkspaceErrorView,
> {
    if !can_be_entered(nodes, directory) {
        Err(
            WorkspaceErrorView::InvalidPath(
                "workspace directory does not exist: "@ + crate::paths::joined(root, directory),
            ),
        )
    } else {
        match survey(nodes, root, directory, tree_order(nodes, directory)) {
            Err(e) => Err(e),
            Ok(s) => Ok(DefaultHasher::spec_finish(s.hashed)),
        }
    }
}

/// The outcome of taking a fingerprint, by its contents.
pub open spec fn digest_outcome(r: Result<DirectoryFingerprint, WorkspaceError>) -> Result<
    u64,
    WorkspaceErrorView,
> {
    match r {
        Ok(f) => Ok(f.number()),
        Err(e) => Err(e@),
    }
}

/// Takes the fingerprint of a directory of the workspace at a root.
pub fn directory_fingerprint(files: &FileTree, root: &ResourcePath, directory: &str) -> (r: Result<
    DirectoryFingerprint,
    WorkspaceError,
>)
    requires
        files.wf(),
        directory@.len() > 0,
    ensures
        digest_outcome(r) == directory_digest(files@.nodes, root@, directory@),
{
    if !files.can_be_entered(directory) {
        return Err(
            WorkspaceError::InvalidPath(
                concat2(
                    "workspace directory does not exist: ",
                    root.join(directory).as_text(),
                ),
            ),
        );
    }
    let list = files.tree_below(directory);
    let start: usize = chars_of(directory).len();
    let mut hasher = DefaultHasher::new();
    let mut count: usize = 0;
    let mut total: u64 = 0;
    let ghost nodes = files@.nodes;
    let ghost all = texts(list@);
    assert(hasher@ =~= seq![]);
    assert(all.take(0) =~= seq![]);
    proof {
        files.lemma_nodes_finite();
        lemma_tree_order_is_there(nodes, directory@);
    }
    for i in 0..list.len()
        invariant
            files.wf(),
            nodes == files@.nodes,
            start == directory@.len(),
            directory@.len() > 0,
            can_be_entered(nodes, directory@),
            all == texts(list@),
            all == tree_order(nodes, directory@),
            count <= MAX_MUTATION_FILES,
            forall|k: int|
                0 <= k < all.len() ==> nodes.dom().contains(#[trigger] all[k]) && all[k].len()
                    > directory@.len(),
            survey(nodes, root@, directory@, all.take(i as int)) == Ok::<Survey, WorkspaceErrorView>(
                Survey { hashed: hasher@, files: count as nat, bytes: total as nat },
            ),
    {
        let path = list[i].as_str();
        proof {
            let next = all.take(i + 1);
            assert(next.drop_last() =~= all.take(i as int));
            assert(next.last() == path@);
            assert(all[i as int] == path@);
        }
        let chars = chars_of(path);
        let length: usize = chars.len();
        assert(start < length);
        let relative = string_of(slice_subrange(chars.as_slice(), start + 1, length));
        assert(relative@ =~= path_below(directory@, path@));
        let ghost hashed = hasher@;
        hasher.write(relative.as_str().as_bytes());
        let ghost named = hasher@;
        assert(named == hashed.push(encode_utf8(relative@)));
        match files.node(path) {
            None => {},
            Some(FileNode::Link(_)) => {
                proof {
                    lemma_survey_error(nodes, root@, directory@, all, i + 1);
                }
                return Err(WorkspaceError::SymbolicLink(root.join(path)));
            },
            Some(FileNode::Directory) => {
                let zero: [u8; 1] = [0u8];
                assert(zero@ =~= seq![0u8]);
                hasher.write(zero.as_slice());
            },
            Some(FileNode::File(bytes)) => {
                let one: [u8; 1] = [1u8];
                assert(one@ =~= seq![1u8]);
                hasher.write(one.as_slice());
                count = count + 1;
                if count > MAX_MUTATION_FILES {
                    proof {
                        lemma_survey_error(nodes, root@, directory@, all, i + 1);
                    }
                    return Err(invalid_format("workspace mutation exceeds 100000 files"));
                }
                let size: u64 = bytes.len() as u64;
                let sum = total.saturating_add(size);
                assert(sum == saturated(total as nat, bytes@.len()));
                total = sum;
                if total > MAX_MUTATION_BYTES {
                    proof {
                        lemma_survey_error(nodes, root@, directory@, all, i + 1);
                    }
                    return Err(
                        WorkspaceError::FileTooLarge {
                            path: root.join(directory),
                            maximum_bytes: MAX_MUTATION_BYTES,
                            observed_bytes: total,
                        },
                    );
                }
                let prefix = u64_to_le_bytes(size);
                hasher.write(prefix.as_slice());
                hasher.write(bytes.as_slice());
                assert(hasher@ =~= named.push(seq![1u8]) + hashed_bytes(bytes@));
            },
        }
    }
    assert(all.take(all.len() as int) =~= all);
    Ok(DirectoryFingerprint(hasher.finish()))
}

/// Everything in the order of a directory is there and lies below it.
pub proof fn lemma_tree_order_is_there(nodes: Nodes, directory: Seq<char>)
    requires
        nodes.dom().finite(),
        directory.len() > 0,
    ensures
        forall|i: int|
            0 <= i < tree_order(nodes, directory).len() ==> crate::files::below(
                nodes,
                directory,
            ).contains(#[trigger] tree_order(nodes, directory)[i]),
        forall|i: int|
            0 <= i < tree_order(nodes, directory).len() ==> (#[trigger] tree_order(
                nodes,
                directory,
            )[i]).len() > directory.len(),
    decreases crate::files::below(nodes, directory).len(), 1int, 0nat,
{
    let names = crate::order::sorted_texts(crate::files::entry_names(nodes, directory));
    crate::files::lemma_entry_names_finite(nodes, directory);
    crate::order::lemma_sorted_texts(crate::files::entry_names(nodes, directory));
    assert forall|i: int| 0 <= i < names.len() implies crate::files::entry_names(
        nodes,
        directory,
    ).contains(#[trigger] names[i]) by {
        assert(names.contains(names[i]));
    }
    lemma_tree_order_of_is_there(nodes, directory, names);
    let list = tree_order(nodes, directory);
    assert(list == crate::files::tree_order_of(nodes, directory, names)) by {
        reveal_with_fuel(tree_order, 2);
    }
    assert forall|i: int| 0 <= i < list.len() implies (#[trigger] list[i]).len()
        > directory.len() by {
        assert(crate::files::below(nodes, directory).contains(list[i]));
        assert(crate::lines::starts_with(list[i], directory + seq!['/']));
    }
}

proof fn lemma_tree_order_of_is_there(nodes: Nodes, directory: Seq<char>, names: Seq<Seq<char>>)
    requires
        nodes.dom().finite(),
        directory.len() > 0,
        forall|i: int|
            0 <= i < names.len() ==> crate::files::entry_names(nodes, directory).contains(
                #[trigger] names[i],
            ),
    ensures
        forall|i: int|
            0 <= i < crate::files::tree_order_of(nodes, directory, names).len()
                ==> crate::files::below(nodes, directory).contains(
                #[trigger] crate::files::tree_order_of(nodes, directory, names)[i],
            ),
    decreases crate::files::below(nodes, directory).len(), 0int, names.len(),
{
    if names.len() > 0 {
        let path = crate::files::entry_path(directory, names.last());
        let shorter = names.drop_last();
        assert forall|i: int| 0 <= i < shorter.len() implies crate::files::entry_names(
            nodes,
            directory,
        ).contains(#[trigger] shorter[i]) by {
            assert(shorter[i] == names[i]);
        }
        lemma_tree_order_of_is_there(nodes, directory, shorter);
        assert(crate::files::entry_names(nodes, directory).contains(names[names.len() - 1]));
        crate::files::lemma_entry_below(nodes, directory, names.last());
        let front = crate::files::tree_order_of(nodes, directory, shorter);
        let whole = crate::files::tree_order_of(nodes, directory, names);
        if is_directory(nodes, path) {
            crate::files::lemma_below_shrinks(nodes, directory, path);
            lemma_tree_order_is_there(nodes, path);
            let inside = tree_order(nodes, path);
            assert forall|i: int| 0 <= i < whole.len() implies crate::files::below(
                nodes,
                directory,
            ).contains(#[trigger] whole[i]) by {
                if i < front.len() {
                    assert(whole[i] == front[i]);
                } else if i > front.len() {
                    let k = inside[i - front.len() - 1];
                    assert(whole[i] == k);
                    assert(crate::files::below(nodes, path).contains(k));
                    crate::files::lemma_under_transitive(directory, path, k);
                }
            }
        } else {
            assert forall|i: int| 0 <= i < whole.len() implies crate::files::below(
                nodes,
                directory,
            ).contains(#[trigger] whole[i]) by {
                if i < front.len() {
                    assert(whole[i] == front[i]);
                }
            }
        }
    }
}

/// Bytes of which the same is hashed are the same.
pub proof fn law_all_bytes_are_hashed(a: Seq<u8>, b: Seq<u8>)
    ensures
        hashed_bytes(a) == hashed_bytes(b) <==> a == b,
{
    assert(hashed_bytes(a)[1] == a);
    assert(hashed_bytes(b)[1] == b);
}

/// What is hashed of some entries begins with what is hashed of the first of them.
proof fn lemma_survey_begins(
    nodes: Nodes,
    root: Seq<char>,
    directory: Seq<char>,
    list: Seq<Seq<char>>,
    k: int,
)
    requires
        0 <= k <= list.len(),
        survey(nodes, root, directory, list) is Ok,
    ensures
        survey(nodes, root, directory, list.take(k)) is Ok,
        ({
            let part = survey(nodes, root, directory, list.take(k))->Ok_0.hashed;
            let whole = survey(nodes, root, directory, list)->Ok_0.hashed;
            part.len() <= whole.len() && whole.take(part.len() as int) == part
        }),
    decreases list.len(),
{
    if k < list.len() {
        assert(list.drop_last().take(k) =~= list.take(k));
        lemma_survey_begins(nodes, root, directory, list.drop_last(), k);
        let part = survey(nodes, root, directory, list.take(k))->Ok_0.hashed;
        let front = survey(nodes, root, directory, list.drop_last())->Ok_0.hashed;
        let whole = survey(nodes, root, directory, list)->Ok_0.hashed;
        assert(whole.take(front.len() as int) =~= front);
        assert(whole.take(part.len() as int) =~= front.take(part.len() as int));
    } else {
        assert(list.take(k) =~= list);
        let whole = survey(nodes, root, directory, list)->Ok_0.hashed;
        assert(whole.take(whole.len() as int) =~= whole);
    }
}

/// Whether two places lie alike below a directory: under the same path, and both of them
/// directories, or files of the same bytes.
pub open spec fn lies_alike(
    a: Nodes,
    b: Nodes,
    directory: Seq<char>,
    place: Seq<char>,
    other: Seq<char>,
) -> bool {
    &&& path_below(directory, place) == path_below(directory, other)
    &&& match (a[place], b[other]) {
        (NodeView::File(x), NodeView::File(y)) => x == y,
        (NodeView::Directory, NodeView::Directory) => true,
        _ => false,
    }
}

/// All names and contents of a directory are hashed: where the same is hashed of some entries
/// and of others, they are as many, and each lies as its counterpart does.
pub proof fn law_all_contents_are_hashed(
    a: Nodes,
    b: Nodes,
    root: Seq<char>,
    directory: Seq<char>,
    list: Seq<Seq<char>>,
    others: Seq<Seq<char>>,
)
    requires
        survey(a, root, directory, list) is Ok,
        survey(b, root, directory, others) is Ok,
        survey(a, root, directory, list)->Ok_0.hashed == survey(
            b,
            root,
            directory,
            others,
        )->Ok_0.hashed,
    ensures
        list.len() == others.len(),
        forall|k: int|
            0 <= k < list.len() ==> lies_alike(a, b, directory, #[trigger] list[k], others[k]),
{
    let n = if list.len() <= others.len() {
        list.len() as int
    } else {
        others.len() as int
    };
    lemma_same_until(a, b, root, directory, list, others, n);
    assert(list.take(list.len() as int) =~= list);
    assert(others.take(others.len() as int) =~= others);
    if n < list.len() {
        lemma_survey_begins(a, root, directory, list, n + 1);
        assert(list.take(n + 1).drop_last() =~= list.take(n));
    }
    if n < others.len() {
        lemma_survey_begins(b, root, directory, others, n + 1);
        assert(others.take(n + 1).drop_last() =~= others.take(n));
    }
}

proof fn lemma_same_until(
    a: Nodes,
    b: Nodes,
    root: Seq<char>,
    directory: Seq<char>,
    list: Seq<Seq<char>>,
    others: Seq<Seq<char>>,
    n: int,
)
    requires
        0 <= n <= list.len(),
        n <= others.len(),
        survey(a, root, directory, list) is Ok,
        survey(b, root, directory, others) is Ok,
        survey(a, root, directory, list)->Ok_0.hashed == survey(
            b,
            root,
            directory,
            others,
        )->Ok_0.hashed,
    ensures
        survey(a, root, directory, list.take(n)) is Ok,
        survey(b, root, directory, others.take(n)) is Ok,
        survey(a, root, directory, list.take(n))->Ok_0.hashed == survey(
            b,
            root,
            directory,
            others.take(n),
        )->Ok_0.hashed,
        forall|k: int| 0 <= k < n ==> lies_alike(a, b, directory, #[trigger] list[k], others[k]),
    decreases n,
{
    lemma_survey_begins(a, root, directory, list, n);
    lemma_survey_begins(b, root, directory, others, n);
    if n > 0 {
        lemma_same_until(a, b, root, directory, list, others, n - 1);
        assert(list.take(n).drop_last() =~= list.take(n - 1));
        assert(others.take(n).drop_last() =~= others.take(n - 1));
        let place = list[n - 1];
        let other = others[n - 1];
        assert(list.take(n).last() == place);
        assert(others.take(n).last() == other);
        let front = survey(a, root, directory, list.take(n - 1))->Ok_0.hashed;
        let x = survey(a, root, directory, list.take(n))->Ok_0.hashed;
        let y = survey(b, root, directory, others.take(n))->Ok_0.hashed;
        let whole = survey(a, root, directory, list)->Ok_0.hashed;
        let m = front.len() as int;
        assert(x[m] == whole.take(x.len() as int)[m]);
        assert(y[m] == whole.take(y.len() as int)[m]);
        assert(x[m] == encode_utf8(path_below(directory, place)));
        assert(y[m] == encode_utf8(path_below(directory, other)));
        vstd::utf8::encode_utf8_decode_utf8(path_below(directory, place));
        vstd::utf8::encode_utf8_decode_utf8(path_below(directory, other));
        assert(x[m + 1] == whole.take(x.len() as int)[m + 1]);
        assert(y[m + 1] == whole.take(y.len() as int)[m + 1]);
        assert(seq![0u8][0] != seq![1u8][0]);
        match (a[place], b[other]) {
            (NodeView::File(p), NodeView::File(q)) => {
                assert(x[m + 3] == p);
                assert(y[m + 3] == q);
                assert(x[m + 3] == whole.take(x.len() as int)[m + 3]);
                assert(y[m + 3] == whole.take(y.len() as int)[m + 3]);
            },
            (NodeView::Directory, NodeView::Directory) => {},
            (NodeView::File(p), NodeView::Directory) => {
                assert(x[m + 1] == seq![1u8]);
                assert(y[m + 1] == seq![0u8]);
            },
            (NodeView::Directory, NodeView::File(q)) => {
                assert(x[m + 1] == seq![0u8]);
                assert(y[m + 1] == seq![1u8]);
            },
            _ => {},
        }
        assert(x.len() == y.len());
        assert(x =~= y);
    } else {
        assert(list.take(0) =~= others.take(0));
    }
}

} // verus!
