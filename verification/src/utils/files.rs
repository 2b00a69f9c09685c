//! The scanned tree: how it is rendered and measured.

use crate::models::{node_views, FileNode, FileNodeType, NodeView};
use crate::text::{decimal, digit_char, push_decimal};
use vstd::prelude::*;
use vstd::string::*;

verus! {

/// The name of a node as the rendered tree shows it: a directory with a
/// slash behind it, a symbolic link with a mark for its unresolved target.
pub open spec fn display_name(node: NodeView) -> Seq<char> {
    match node.node_type {
        FileNodeType::Directory => node.name + "/"@,
        FileNodeType::Symlink => node.name + " -> ?"@,
        FileNodeType::File => node.name,
    }
}

/// What is drawn in front of a node's name.
pub open spec fn connector(is_last: bool) -> Seq<char> {
    if is_last {
        "└── "@
    } else {
        "├── "@
    }
}

/// What a node adds to the prefix of the lines below it.
pub open spec fn continuation(is_last: bool) -> Seq<char> {
    if is_last {
        "    "@
    } else {
        "│   "@
    }
}

/// The lines of a subtree: the node's own line, then, for a directory, the
/// lines of its children in the order they stand in.
pub open spec fn rendered(node: NodeView, prefix: Seq<char>, is_last: bool) -> Seq<char>
    decreases node, 0nat,
{
    let line = prefix + connector(is_last) + display_name(node) + "\n"@;
    if node.node_type == FileNodeType::Directory {
        line + rendered_children(
            node.children,
            prefix + continuation(is_last),
            node.children.len(),
        )
    } else {
        line
    }
}

/// The lines of the first `count` nodes of `children`.
pub open spec fn rendered_children(children: Seq<NodeView>, prefix: Seq<char>, count: nat) -> Seq<
    char,
>
    decreases children, count,
{
    if count == 0 || count > children.len() {
        Seq::empty()
    } else {
        rendered_children(children, prefix, (count - 1) as nat) + rendered(
            children[count - 1],
            prefix,
            count == children.len(),
        )
    }
}

/// How many files a subtree holds. Symbolic links are not counted.
pub open spec fn file_count(node: NodeView) -> nat
    decreases node, 0nat,
{
    match node.node_type {
        FileNodeType::File => 1,
        FileNodeType::Directory => file_count_of(node.children, node.children.len()),
        FileNodeType::Symlink => 0,
    }
}

/// How many files the first `count` nodes of `children` hold.
pub open spec fn file_count_of(children: Seq<NodeView>, count: nat) -> nat
    decreases children, count,
{
    if count == 0 || count > children.len() {
        0
    } else {
        file_count_of(children, (count - 1) as nat) + file_count(children[count - 1])
    }
}

/// How many bytes the files of a subtree have. A directory has the bytes of
/// what is below it; a symbolic link has none.
pub open spec fn total_size(node: NodeView) -> nat
    decreases node, 0nat,
{
    match node.node_type {
        FileNodeType::File => node.size as nat,
        FileNodeType::Directory => total_size_of(node.children, node.children.len()),
        FileNodeType::Symlink => 0,
    }
}

/// How many bytes the files of the first `count` nodes of `children` have.
pub open spec fn total_size_of(children: Seq<NodeView>, count: nat) -> nat
    decreases children, count,
{
    if count == 0 || count > children.len() {
        0
    } else {
        total_size_of(children, (count - 1) as nat) + total_size(children[count - 1])
    }
}

/// `n`, or `limit` if `n` is beyond it.
pub open spec fn capped(n: nat, limit: nat) -> nat {
    if n <= limit {
        n
    } else {
        limit
    }
}

/// The scanner's work on the tree.
pub struct FileService;

impl FileService {
    /// Renders a subtree as indented lines. `prefix` is what the lines of
    /// the ancestors put in front; `is_last` says whether the node is the
    /// last of its siblings.
    pub fn generate_tree_string(node: &FileNode, prefix: &str, is_last: bool) -> (text: String)
        ensures
            text@ == rendered(node@, prefix@, is_last),
        decreases node,
    {
        proof {
            node.lemma_view();
        }
        let mut text = String::from_str(prefix);
        text.append(if is_last {
            "└── "
        } else {
            "├── "
        });
        text.append(node.name.as_str());
        match node.node_type {
            FileNodeType::Directory => {
                text.append("/");
            },
            FileNodeType::Symlink => {
                text.append(" -> ?");
            },
            FileNodeType::File => {},
        }
        text.append("\n");
        if node.node_type == FileNodeType::Directory {
            let mut new_prefix = String::from_str(prefix);
            new_prefix.append(if is_last {
                "    "
            } else {
                "│   "
            });
            let ghost line = text@;
            let mut i: usize = 0;
            while i < node.children.len()
                invariant
                    i <= node.children.len(),
                    node@.children.len() == node.children.len(),
                    forall|k: int|
                        0 <= k < node.children@.len() ==> #[trigger] node@.children[k]
                            == node.children@[k]@,
                    new_prefix@ == prefix@ + continuation(is_last),
                    text@ == line + rendered_children(node@.children, new_prefix@, i as nat),
                decreases node.children.len() - i,
            {
                let is_child_last = i == node.children.len() - 1;
                let child_text = Self::generate_tree_string(
                    &node.children[i],
                    new_prefix.as_str(),
                    is_child_last,
                );
                text.append(child_text.as_str());
                i = i + 1;
                assert(text@ =~= line + rendered_children(node@.children, new_prefix@, i as nat));
            }
        }
        text
    }

    /// Renders a subtree as indented lines; the same rendering as
    /// [`FileService::generate_tree_string`].
    pub fn generate_tree_string_lazy(node: &FileNode, prefix: &str, is_last: bool) -> (text: String)
        ensures
            text@ == rendered(node@, prefix@, is_last),
    {
        Self::generate_tree_string(node, prefix, is_last)
    }

    /// Counts the files of a subtree. The count stops at `usize::MAX`.
    pub fn count_files(node: &FileNode) -> (count: usize)
        ensures
            count == capped(file_count(node@), usize::MAX as nat),
        decreases node,
    {
        proof {
            node.lemma_view();
        }
        match node.node_type {
            FileNodeType::File => 1,
            FileNodeType::Symlink => 0,
            FileNodeType::Directory => {
                let mut count: usize = 0;
                let mut i: usize = 0;
                while i < node.children.len()
                    invariant
                        i <= node.children.len(),
                        node@.children.len() == node.children.len(),
                        forall|k: int|
                            0 <= k < node.children@.len() ==> #[trigger] node@.children[k]
                                == node.children@[k]@,
                        count == capped(
                            file_count_of(node@.children, i as nat),
                            usize::MAX as nat,
                        ),
                    decreases node.children.len() - i,
                {
                    let below = Self::count_files(&node.children[i]);
                    count = if below > usize::MAX - count {
                        usize::MAX
                    } else {
                        count + below
                    };
                    i = i + 1;
                }
                count
            },
        }
    }

    /// Adds up the sizes of the files of a subtree. The sum stops at
    /// `u64::MAX`.
    pub fn calculate_total_size(node: &FileNode) -> (size: u64)
        ensures
            size == capped(total_size(node@), u64::MAX as nat),
        decreases node,
    {
        proof {
            node.lemma_view();
        }
        match node.node_type {
            FileNodeType::File => node.size,
            FileNodeType::Symlink => 0,
            FileNodeType::Directory => {
                let mut size: u64 = 0;
                let mut i: usize = 0;
                while i < node.children.len()
                    invariant
                        i <= node.children.len(),
                        node@.children.len() == node.children.len(),
                        forall|k: int|
                            0 <= k < node.children@.len() ==> #[trigger] node@.children[k]
                                == node.children@[k]@,
                        size == capped(total_size_of(node@.children, i as nat), u64::MAX as nat),
                    decreases node.children.len() - i,
                {
                    let below = Self::calculate_total_size(&node.children[i]);
                    size = if below > u64::MAX - size {
                        u64::MAX
                    } else {
                        size + below
                    };
                    i = i + 1;
                }
                size
            },
        }
    }
}

/// The unit a size is shown in: bytes below 1024, then KB, MB and GB, each
/// 1024 times the one before, and TB from 1024 GB on.
pub open spec fn size_unit(bytes: nat) -> nat {
    if bytes < 1024 {
        0
    } else if bytes < 1024 * 1024 {
        1
    } else if bytes < 1024 * 1024 * 1024 {
        2
    } else if bytes < 1024 * 1024 * 1024 * 1024 {
        3
    } else {
        4
    }
}

/// How many bytes one of a unit is.
pub open spec fn unit_bytes(unit: nat) -> nat {
    if unit == 0 {
        1
    } else if unit == 1 {
        1024
    } else if unit == 2 {
        1024 * 1024
    } else if unit == 3 {
        1024 * 1024 * 1024
    } else {
        1024 * 1024 * 1024 * 1024
    }
}

/// The name of a unit.
pub open spec fn unit_name(unit: nat) -> Seq<char> {
    if unit == 0 {
        "B"@
    } else if unit == 1 {
        "KB"@
    } else if unit == 2 {
        "MB"@
    } else if unit == 3 {
        "GB"@
    } else {
        "TB"@
    }
}

/// `bytes / divisor` in tenths, rounded to the nearest tenth; a value that
/// lies halfway between two tenths goes to the even one.
pub open spec fn rounded_tenths(bytes: nat, divisor: nat) -> nat {
    let scaled = bytes * 10;
    let below = scaled / divisor;
    let rest = scaled % divisor;
    if 2 * rest > divisor || (2 * rest == divisor && below % 2 == 1) {
        below + 1
    } else {
        below
    }
}

/// A size as a person reads it: whole bytes below 1024, else one decimal
/// place and the unit.
pub open spec fn formatted_size(bytes: nat) -> Seq<char> {
    let unit = size_unit(bytes);
    if unit == 0 {
        decimal(bytes) + " "@ + unit_name(0)
    } else {
        let tenths = rounded_tenths(bytes, unit_bytes(unit));
        decimal(tenths / 10) + "."@ + seq![digit_char(tenths % 10)] + " "@ + unit_name(unit)
    }
}

/// Writes a size as a person reads it, such as `1.5 KB`.
pub fn format_file_size(bytes: u64) -> (text: String)
    ensures
        text@ == formatted_size(bytes as nat),
{
    let mut text = String::new();
    if bytes < 1024 {
        push_decimal(&mut text, bytes);
        text.append(" ");
        text.append("B");
        return text;
    }
    let (divisor, unit): (u128, &str) = if bytes < 1024 * 1024 {
        (1024, "KB")
    } else if bytes < 1024 * 1024 * 1024 {
        (1024 * 1024, "MB")
    } else if bytes < 1024 * 1024 * 1024 * 1024 {
        (1024 * 1024 * 1024, "GB")
    } else {
        (1024 * 1024 * 1024 * 1024, "TB")
    };
    assert(divisor == unit_bytes(size_unit(bytes as nat)));
    assert(unit@ == unit_name(size_unit(bytes as nat)));
    let scaled: u128 = (bytes as u128) * 10;
    let below: u128 = scaled / divisor;
    let rest: u128 = scaled % divisor;
    let tenths: u128 = if 2 * rest > divisor || (2 * rest == divisor && below % 2 == 1) {
        below + 1
    } else {
        below
    };
    assert(tenths == rounded_tenths(bytes as nat, divisor as nat));
    assert(tenths / 10 <= u64::MAX);
    let whole: u64 = (tenths / 10) as u64;
    let tenth: u64 = (tenths % 10) as u64;
    push_decimal(&mut text, whole);
    text.append(".");
    push_decimal(&mut text, tenth);
    text.append(" ");
    text.append(unit);
    text
}

/// Rendering goes one way only. The line of a node that is not a directory
/// shows its name and its kind and nothing else, so two nodes that differ
/// in size, in path or in whether their content belongs in the digest are
/// rendered alike, and the text does not give the tree back.
pub proof fn lemma_rendering_is_one_directional(
    a: NodeView,
    b: NodeView,
    prefix: Seq<char>,
    is_last: bool,
)
    requires
        a.node_type != FileNodeType::Directory,
        a.node_type == b.node_type,
        a.name == b.name,
    ensures
        rendered(a, prefix, is_last) == rendered(b, prefix, is_last),
        exists|x: NodeView, y: NodeView|
            x != y && #[trigger] rendered(x, prefix, is_last) == #[trigger] rendered(
                y,
                prefix,
                is_last,
            ),
{
    let x = a;
    let y = NodeView {
        name: a.name,
        path: a.path,
        relative_path: a.relative_path,
        node_type: a.node_type,
        size: if a.size == 0 {
            1
        } else {
            0
        },
        has_content: a.has_content,
        children: a.children,
        depth: a.depth,
    };
    assert(x != y);
    assert(rendered(x, prefix, is_last) == rendered(y, prefix, is_last));
}

} // verus!
