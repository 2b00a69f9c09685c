use gitingest::config::parse_number;
use gitingest::text::{char_is_space, chars_of, contains, replace_all, split, str_eq, string_of, trim_bounds};
use gitingest::{file_name, is_binary_file, normalize_pattern, PatternService};
use std::path::Path;

const PATHS: [&str; 40] = [
    "",
    ".",
    "..",
    "/",
    "//",
    "a",
    "a.exe",
    "a.EXE",
    "a.Exe",
    ".exe",
    "..exe",
    "a..exe",
    "a.exe.",
    "a.exe/",
    "a.exe//",
    "a.exe/.",
    "a.exe/./",
    "a.exe/..",
    "./a.png",
    "../a.png",
    "dir.png/file",
    "dir/file.tar.gz",
    "dir/.hidden",
    "dir/.hidden.zip",
    "dir/name.",
    "dir/name.7Z",
    "dir/na me.mp3",
    "dir/name.mp3 ",
    "dir/name.m\u{50}3",
    "dir/name.\u{212a}",
    "dir/name.JPEG",
    "dir/name.jpeg2",
    "dir/name.so",
    "dir/name.s\u{f6}",
    "dir/\u{65e5}\u{672c}.PDF",
    "/abs/path/lib.A",
    "/abs/path/lib.o",
    "x.dylib",
    "x.DyLib",
    "target/out.bin",
];

/// The extension as `std::path` finds it, lowered as `str::to_lowercase`
/// lowers it, and looked up in the list of binary extensions.
fn binary_by_the_standard_library(path: &str) -> bool {
    match Path::new(path).extension() {
        Some(extension) => {
            let ext = extension.to_string_lossy().to_lowercase();
            matches!(
                ext.as_str(),
                "exe" | "dll" | "so" | "dylib" | "a" | "lib" | "o" | "obj" | "bin" | "png" | "jpg"
                    | "jpeg"
                    | "gif" | "bmp" | "ico" | "svg" | "pdf" | "doc" | "docx" | "xls" | "xlsx"
                    | "ppt" | "pptx" | "zip" | "tar" | "gz" | "bz2" | "7z" | "rar" | "mp3"
                    | "mp4" | "avi" | "mov" | "wmv" | "flv"
            )
        }
        None => false,
    }
}

#[test]
fn binary_detection_agrees_with_the_standard_library() {
    for path in PATHS {
        assert_eq!(is_binary_file(path), binary_by_the_standard_library(path), "{:?}", path);
    }
}

#[test]
fn every_listed_extension_is_binary_in_any_case() {
    let extensions = [
        "exe", "dll", "so", "dylib", "a", "lib", "o", "obj", "bin", "png", "jpg", "jpeg", "gif", "bmp",
        "ico", "svg", "pdf", "doc", "docx", "xls", "xlsx", "ppt", "pptx", "zip", "tar", "gz",
        "bz2", "7z", "rar", "mp3", "mp4", "avi", "mov", "wmv", "flv",
    ];
    for ext in extensions {
        assert!(is_binary_file(&format!("dir/file.{}", ext)));
        assert!(is_binary_file(&format!("dir/file.{}", ext.to_uppercase())));
        assert!(!is_binary_file(&format!("dir/file.{}q", ext)));
        assert!(!is_binary_file(&format!("dir/file.q{}", ext)));
    }
    for ext in ["rs", "txt", "md", "c", "h", "json", "toml", "wav", "log", "pyc"] {
        assert!(!is_binary_file(&format!("file.{}", ext)));
    }
}

#[test]
fn file_names_agree_with_the_standard_library() {
    for path in PATHS {
        let expected = Path::new(path).file_name().map(|n| n.to_string_lossy().into_owned());
        assert_eq!(file_name(path), expected, "{:?}", path);
    }
}

#[test]
fn white_space_is_what_the_standard_library_trims() {
    for code in 0..=0x10FFFFu32 {
        if let Some(c) = char::from_u32(code) {
            assert_eq!(char_is_space(c), c.is_whitespace(), "U+{:04X}", code);
        }
    }
}

#[test]
fn trimming_agrees_with_the_standard_library() {
    for text in ["", " ", "a", " a", "a ", "  a b  ", "\t\r\n x \u{a0}\u{3000}", "\u{2003}", "x\u{200b} "] {
        let chars = chars_of(text);
        assert_eq!(chars, text.chars().collect::<Vec<char>>());
        let (from, to) = trim_bounds(&chars);
        assert_eq!(string_of(&chars, from, to), text.trim(), "{:?}", text);
    }
}

#[test]
fn normal_form_agrees_with_the_standard_library() {
    for pattern in ["", "/", "\\", "a", "a/", "a\\", "a\\b/", "a/**", "*.rs", "\\\\x\\", "d/ ", "\u{e4}/"] {
        let mut expected = pattern.replace('\\', "/");
        if expected.ends_with('/') {
            expected = format!("{}**", expected);
        }
        assert_eq!(normalize_pattern(pattern), expected, "{:?}", pattern);
    }
}

#[test]
fn gitignore_reading_agrees_with_a_reading_line_by_line() {
    let contents = [
        "",
        "\n",
        "a",
        "a\n",
        "a\r\nb\r\n",
        "# comment\n!negated\n  spaced  \n\n/abs/\nlast/",
        "   \n\t# indented comment\n\t!indented negation\n x # not a comment \n",
        "win\\dows\\\n",
        "\u{feff}bom\n",
    ];
    for content in contents {
        let mut expected = Vec::new();
        for line in content.lines() {
            let line = line.trim();
            if line.is_empty() || line.starts_with('#') || line.starts_with('!') {
                continue;
            }
            expected.push(normalize_pattern(line));
        }
        assert_eq!(PatternService::parse_gitignore(content), expected, "{:?}", content);
    }
}

#[test]
fn text_helpers_agree_with_the_standard_library() {
    let texts = ["", "a", "ab", "aab", "abab", "https://x/https://", "a//b", "\u{e4}\u{f6}", "://"];
    let needles = ["a", "ab", "b", "://", "//", "\u{f6}", "abc"];
    for text in texts {
        for needle in needles {
            assert_eq!(contains(text, needle), text.contains(needle), "{:?} {:?}", text, needle);
            assert_eq!(replace_all(text, needle, "<>"), text.replace(needle, "<>"));
            assert_eq!(replace_all(text, needle, ""), text.replace(needle, ""));
            assert_eq!(str_eq(text, needle), text == needle);
        }
        for sep in ['/', 'a', ':'] {
            let expected: Vec<String> = text.split(sep).map(|s| s.to_string()).collect();
            assert_eq!(split(text, sep), expected, "{:?} {:?}", text, sep);
        }
    }
}

#[test]
fn numbers_agree_with_the_standard_library_near_the_limits() {
    for n in [0u64, 1, 9, 10, 254, 255, 256, 65_535, 65_536, u32::MAX as u64, u32::MAX as u64 + 1, u64::MAX - 1, u64::MAX] {
        let text = n.to_string();
        assert_eq!(parse_number(&text, u64::MAX), Some(n));
        assert_eq!(parse_number(&text, 255), text.parse::<u8>().ok().map(u64::from));
        assert_eq!(parse_number(&text, 65_535), text.parse::<u16>().ok().map(u64::from));
        assert_eq!(parse_number(&text, u32::MAX as u64), text.parse::<u32>().ok().map(u64::from));
        assert_eq!(parse_number(&format!("{}0", text), u64::MAX), format!("{}0", text).parse::<u64>().ok());
    }
}
