//! The content materializer: what is written for each file of the tree, in
//! the order of a depth-first walk.
//!
//! The text of the files is never gathered here. A file's place in the
//! output is marked by a chunk that names its path; whoever writes the
//! output reads that file when its turn has come, and lets it go again.

use crate::models::{node_views, FileNode, FileNodeType, NodeView};
use crate::text::{decimal, push_decimal};
use crate::utils::encoding::{
    decode_file_content, decoded_content, is_plain_utf8, max_decodable_len,
};
use crate::utils::files::FileService;
use vstd::prelude::*;
use vstd::string::*;

verus! {

/// One piece of the output.
#[derive(Debug, Clone)]
pub enum ContentChunk {
    /// Text to be written as it is.
    Text(String),
    /// The body of the file at this path, to be read and written now.
    FileBody(String),
}

/// The mathematical value of a [`ContentChunk`].
pub enum ChunkView {
    Text(Seq<char>),
    FileBody(Seq<char>),
}

impl View for ContentChunk {
    type V = ChunkView;

    open spec fn view(&self) -> ChunkView {
        match self {
            ContentChunk::Text(text) => ChunkView::Text(text@),
            ContentChunk::FileBody(path) => ChunkView::FileBody(path@),
        }
    }
}

/// The values of a list of chunks.
pub open spec fn chunk_views(chunks: Seq<ContentChunk>) -> Seq<ChunkView> {
    chunks.map_values(|c: ContentChunk| c@)
}

/// A file larger than this many bytes gets a notice in place of its body.
pub const CONTENT_SIZE_LIMIT: u64 = 100_000;

/// The line of equals signs under a file's path.
pub open spec fn separator() -> Seq<char> {
    "================================================"@
}

/// What stands above a file's body: its relative path with a colon, and the
/// separator, each on a line of its own.
pub open spec fn file_header(node: NodeView) -> Seq<char> {
    node.relative_path + ":\n"@ + separator() + "\n"@
}

/// What stands in place of the body of a file that is too large.
pub open spec fn truncation_notice(size: u64) -> Seq<char> {
    "[Large file content truncated - "@ + decimal(size as nat) + " bytes]\n\n"@
}

/// The chunks of a subtree. A file whose content belongs in the digest
/// gives its header and then its body, or a notice if it is too large. A
/// directory gives the chunks of its children, in the order they stand in,
/// and nothing of its own. Everything else gives nothing.
pub open spec fn content_chunks(node: NodeView) -> Seq<ChunkView>
    decreases node, 0nat,
{
    if node.node_type == FileNodeType::File && node.has_content {
        if node.size > CONTENT_SIZE_LIMIT {
            seq![ChunkView::Text(file_header(node) + truncation_notice(node.size))]
        } else {
            seq![ChunkView::Text(file_header(node)), ChunkView::FileBody(node.path)]
        }
    } else if node.node_type == FileNodeType::Directory {
        content_chunks_of(node.children, node.children.len())
    } else {
        Seq::empty()
    }
}

/// The chunks of the first `count` nodes of `children`.
pub open spec fn content_chunks_of(children: Seq<NodeView>, count: nat) -> Seq<ChunkView>
    decreases children, count,
{
    if count == 0 || count > children.len() {
        Seq::empty()
    } else {
        content_chunks_of(children, (count - 1) as nat) + content_chunks(children[count - 1])
    }
}

/// What is written for the body of a file: its decoded text and a blank
/// line, or a placeholder if the file could not be read.
pub open spec fn file_body_text(bytes: Option<Seq<u8>>) -> Seq<char> {
    match bytes {
        Some(bytes) => if bytes.len() <= max_decodable_len() {
            decoded_content(bytes) + "\n\n"@
        } else {
            "[Error reading file content]\n\n"@
        },
        None => "[Error reading file content]\n\n"@,
    }
}

/// Something whose content can be laid out as chunks.
pub trait ContentWriter {
    /// The chunks of this value.
    spec fn content(&self) -> Seq<ChunkView>;

    /// Appends the chunks of this value to `out`.
    fn write_content(&self, out: &mut Vec<ContentChunk>)
        ensures
            chunk_views(final(out)@) == chunk_views(old(out)@) + self.content(),
    ;
}

impl ContentWriter for FileNode {
    open spec fn content(&self) -> Seq<ChunkView> {
        content_chunks(self@)
    }

    fn write_content(&self, out: &mut Vec<ContentChunk>) {
        FileService::append_chunks(self, out);
    }
}

impl FileService {
    /// Appends the chunks of a subtree to `out`, depth first.
    pub fn append_chunks(node: &FileNode, out: &mut Vec<ContentChunk>)
        ensures
            chunk_views(final(out)@) == chunk_views(old(out)@) + content_chunks(node@),
        decreases node,
    {
        proof {
            node.lemma_view();
        }
        if node.node_type == FileNodeType::File && node.has_content {
            let mut header = node.relative_path.clone();
            header.append(":\n");
            header.append("================================================");
            header.append("\n");
            if node.size > CONTENT_SIZE_LIMIT {
                header.append("[Large file content truncated - ");
                push_decimal(&mut header, node.size);
                header.append(" bytes]\n\n");
                let chunk = ContentChunk::Text(header);
                assert(chunk@ == ChunkView::Text(
                    file_header(node@) + truncation_notice(node.size),
                )) by {
                    assert(header@ =~= file_header(node@) + truncation_notice(node.size));
                }
                let ghost before = out@;
                out.push(chunk);
                assert(chunk_views(out@) =~= chunk_views(before) + content_chunks(node@));
            } else {
                let head = ContentChunk::Text(header);
                let body = ContentChunk::FileBody(node.path.clone());
                let ghost before = out@;
                out.push(head);
                out.push(body);
                assert(chunk_views(out@) =~= chunk_views(before) + content_chunks(node@));
            }
        } else if node.node_type == FileNodeType::Directory {
            let ghost before = out@;
            let mut i: usize = 0;
            assert(chunk_views(out@) =~= chunk_views(before) + content_chunks_of(
                node@.children,
                0,
            ));
            while i < node.children.len()
                invariant
                    i <= node.children.len(),
                    node@.children.len() == node.children.len(),
                    forall|k: int|
                        0 <= k < node.children@.len() ==> #[trigger] node@.children[k]
                            == node.children@[k]@,
                    chunk_views(out@) == chunk_views(before) + content_chunks_of(
                        node@.children,
                        i as nat,
                    ),
                decreases node.children.len() - i,
            {
                Self::append_chunks(&node.children[i], out);
                i = i + 1;
                assert(chunk_views(out@) =~= chunk_views(before) + content_chunks_of(
                    node@.children,
                    i as nat,
                ));
            }
        } else {
            assert(chunk_views(out@) =~= chunk_views(out@) + content_chunks(node@));
        }
    }

    /// The text that is written for the body of a file: `bytes` is what was
    /// read from it, or `None` if reading failed. A file that is UTF-8 as it
    /// stands is written as the text it holds.
    pub fn file_body(bytes: Option<&[u8]>) -> (text: String)
        ensures
            text@ == file_body_text(
                match bytes {
                    Some(bytes) => Some(bytes@),
                    None => None,
                },
            ),
            bytes matches Some(read) ==> (read@.len() <= max_decodable_len() && is_plain_utf8(
                read@,
            ) ==> text@ == vstd::utf8::decode_utf8(read@) + "\n\n"@),
    {
        match bytes {
            Some(bytes) => {
                if bytes.len() <= usize::MAX / 16 {
                    let mut text = decode_file_content(bytes);
                    text.append("\n\n");
                    text
                } else {
                    String::from_str("[Error reading file content]\n\n")
                }
            },
            None => String::from_str("[Error reading file content]\n\n"),
        }
    }
}

} // verus!
