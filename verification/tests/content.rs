use gitingest::utils::content::{ContentChunk, ContentWriter};
use gitingest::utils::encoding::{decode_file_content, fallback_decoding};
use gitingest::{FileNode, FileNodeType, FileService};

fn node(path: &str, kind: FileNodeType, size: u64, has_content: bool, children: Vec<FileNode>) -> FileNode {
    FileNode {
        name: path.rsplit('/').next().unwrap().to_string(),
        path: format!("/root/{}", path),
        relative_path: path.to_string(),
        node_type: kind,
        size,
        has_content,
        children,
        depth: 0,
    }
}

fn describe(chunks: &[ContentChunk]) -> Vec<String> {
    chunks
        .iter()
        .map(|c| match c {
            ContentChunk::Text(text) => format!("text:{}", text),
            ContentChunk::FileBody(path) => format!("body:{}", path),
        })
        .collect()
}

#[test]
fn chunks_follow_the_tree_depth_first() {
    let line = "=".repeat(48);
    let tree = node(
        "",
        FileNodeType::Directory,
        0,
        false,
        vec![
            node(
                "src",
                FileNodeType::Directory,
                0,
                false,
                vec![
                    node("src/a.rs", FileNodeType::File, 12, true, vec![]),
                    node("src/big.rs", FileNodeType::File, 100_001, true, vec![]),
                    node("src/image.png", FileNodeType::File, 5, false, vec![]),
                ],
            ),
            node("link", FileNodeType::Symlink, 0, true, vec![]),
            node("z.txt", FileNodeType::File, 100_000, true, vec![]),
        ],
    );
    let mut chunks = vec![ContentChunk::Text("before".to_string())];
    tree.write_content(&mut chunks);
    assert_eq!(
        describe(&chunks),
        vec![
            "text:before".to_string(),
            format!("text:src/a.rs:\n{}\n", line),
            "body:/root/src/a.rs".to_string(),
            format!(
                "text:src/big.rs:\n{}\n[Large file content truncated - 100001 bytes]\n\n",
                line
            ),
            format!("text:z.txt:\n{}\n", line),
            "body:/root/z.txt".to_string(),
        ]
    );
    let mut again = Vec::new();
    FileService::append_chunks(&tree, &mut again);
    assert_eq!(describe(&again), describe(&chunks[1..]));
}

#[test]
fn directories_and_files_without_content_write_nothing() {
    let mut chunks = Vec::new();
    node("d", FileNodeType::Directory, 0, true, vec![]).write_content(&mut chunks);
    node("f", FileNodeType::File, 1, false, vec![]).write_content(&mut chunks);
    node("l", FileNodeType::Symlink, 1, true, vec![]).write_content(&mut chunks);
    assert!(chunks.is_empty());
}

#[test]
fn file_body_is_the_text_and_a_blank_line_or_a_placeholder() {
    assert_eq!(FileService::file_body(Some(b"Hello, World!")), "Hello, World!\n\n");
    assert_eq!(FileService::file_body(Some(b"")), "\n\n");
    assert_eq!(FileService::file_body(None), "[Error reading file content]\n\n");
}

#[test]
fn utf8_is_taken_as_it_is() {
    assert_eq!(decode_file_content(b"Hello, World!"), "Hello, World!");
    assert_eq!(decode_file_content("gr\u{fc}\u{df}e \u{65e5}\u{672c}".as_bytes()), "gr\u{fc}\u{df}e \u{65e5}\u{672c}");
    assert_eq!(decode_file_content(b""), "");
}

#[test]
fn a_byte_order_mark_is_taken_away() {
    assert_eq!(decode_file_content(&[0xEF, 0xBB, 0xBF, b'h', b'i']), "hi");
    assert_eq!(decode_file_content(&[0xEF, 0xBB, 0xBF]), "");
    // Without the whole mark the bytes are text as they stand.
    assert_eq!(decode_file_content("\u{ef}\u{bb}".as_bytes()), "\u{ef}\u{bb}");
    assert_eq!(FileService::file_body(Some("gr\u{fc}n".as_bytes())), "gr\u{fc}n\n\n");
}

#[test]
fn bytes_that_are_not_utf8_are_read_as_windows_1252() {
    // 0xE9 is `é` and 0x80 is the euro sign in windows-1252.
    assert_eq!(decode_file_content(&[b'c', b'a', b'f', 0xE9]), "caf\u{e9}");
    assert_eq!(decode_file_content(&[0x80, b'5']), "\u{20ac}5");
    // Nothing is lost and nothing is the bytes themselves.
    let decoded = decode_file_content(&[0xFF, 0xFE, 0x41]);
    assert!(!decoded.is_empty());
}

#[test]
fn the_first_clean_decoding_is_taken() {
    let text = |s: &str, bad: bool| (s.to_string(), bad);
    assert_eq!(fallback_decoding(text("w", false), text("i", false), "l".to_string()), "w");
    assert_eq!(fallback_decoding(text("w", true), text("i", false), "l".to_string()), "i");
    assert_eq!(fallback_decoding(text("w", true), text("i", true), "l".to_string()), "l");
    assert_eq!(fallback_decoding(text("w", false), text("i", true), "l".to_string()), "w");
}
