//! The icon shown beside an entry, chosen by its kind and extension.

use crate::record::{extension, extension_of};
use crate::text::{lowercase, text_equals, to_lowercase};
use vstd::prelude::*;
use vstd::string::*;

verus! {

/// The icon of a file whose lowercase extension is `ext`.
pub open spec fn icon_for_extension(ext: Seq<char>) -> Seq<char> {
    if ext == "rs"@ {
        "🦀"@
    } else if ext == "py"@ {
        "🐍"@
    } else if ext == "js"@ || ext == "mjs"@ {
        "🧩"@
    } else if ext == "ts"@ || ext == "tsx"@ {
        "🧠"@
    } else if ext == "java"@ {
        "☕"@
    } else if ext == "cpp"@ || ext == "cc"@ || ext == "cxx"@ || ext == "hpp"@ || ext == "h"@ || ext == "c"@ {
        "⚙️"@
    } else if ext == "go"@ {
        "🐹"@
    } else if ext == "php"@ {
        "🐘"@
    } else if ext == "rb"@ {
        "💎"@
    } else if ext == "swift"@ {
        "🕊️"@
    } else if ext == "kt"@ || ext == "kts"@ {
        "🤖"@
    } else if ext == "dart"@ {
        "🎯"@
    } else if ext == "lua"@ {
        "🌙"@
    } else if ext == "html"@ {
        "🌐"@
    } else if ext == "css"@ || ext == "scss"@ || ext == "less"@ {
        "🎨"@
    } else if ext == "sql"@ {
        "🗄️"@
    } else if ext == "toml"@ || ext == "yaml"@ || ext == "yml"@ || ext == "json"@ || ext == "ini"@ {
        "⚙️"@
    } else if ext == "lock"@ {
        "🔒"@
    } else if ext == "sh"@ || ext == "bash"@ || ext == "zsh"@ || ext == "ps1"@ {
        "💻"@
    } else if ext == "env"@ {
        "🌱"@
    } else if ext == "dockerfile"@ {
        "🐳"@
    } else if ext == "makefile"@ || ext == "mk"@ {
        "🔧"@
    } else if ext == "md"@ || ext == "markdown"@ {
        "📝"@
    } else if ext == "txt"@ {
        "📄"@
    } else if ext == "pdf"@ {
        "📕"@
    } else if ext == "doc"@ || ext == "docx"@ {
        "📘"@
    } else if ext == "xls"@ || ext == "xlsx"@ || ext == "ods"@ {
        "📗"@
    } else if ext == "ppt"@ || ext == "pptx"@ || ext == "odp"@ {
        "📙"@
    } else if ext == "rtf"@ {
        "📜"@
    } else if ext == "zip"@ || ext == "gz"@ || ext == "tar"@ || ext == "rar"@ || ext == "7z"@ || ext == "bz2"@ {
        "🗜️"@
    } else if ext == "iso"@ {
        "💿"@
    } else if ext == "png"@ || ext == "jpg"@ || ext == "jpeg"@ || ext == "gif"@ || ext == "bmp"@ || ext == "svg"@ || ext == "ico"@ || ext == "webp"@ {
        "🖼️"@
    } else if ext == "psd"@ || ext == "xcf"@ {
        "🎨"@
    } else if ext == "mp3"@ || ext == "wav"@ || ext == "flac"@ || ext == "ogg"@ || ext == "m4a"@ {
        "🎵"@
    } else if ext == "mp4"@ || ext == "mkv"@ || ext == "avi"@ || ext == "mov"@ || ext == "webm"@ {
        "🎞️"@
    } else if ext == "srt"@ || ext == "vtt"@ {
        "💬"@
    } else if ext == "csv"@ || ext == "tsv"@ || ext == "xml"@ {
        "📊"@
    } else if ext == "db"@ || ext == "sqlite"@ || ext == "db3"@ {
        "🗃️"@
    } else if ext == "log"@ {
        "📜"@
    } else if ext == "exe"@ || ext == "bin"@ || ext == "app"@ || ext == "msi"@ {
        "⚡"@
    } else if ext == "dll"@ || ext == "so"@ || ext == "dylib"@ {
        "🧱"@
    } else if ext == "bat"@ || ext == "cmd"@ {
        "🪟"@
    } else if ext == "jsonl"@ || ext == "ndjson"@ {
        "🌐"@
    } else if ext == "wasm"@ {
        "🧬"@
    } else if ext == "pem"@ || ext == "crt"@ || ext == "cer"@ || ext == "key"@ {
        "🔐"@
    } else if ext == "conf"@ || ext == "cfg"@ {
        "🧩"@
    } else {
        "📄"@
    }
}

/// The extension of a name, or the empty string where it has none.
pub open spec fn extension_or_none(name: Seq<char>) -> Seq<char> {
    match extension(name) {
        Some(e) => e,
        None => Seq::empty(),
    }
}

/// The icon of an entry: a folder for a directory, else the icon of the
/// name's extension taken in lowercase.
pub open spec fn icon_text(name: Seq<char>, is_dir: bool) -> Seq<char> {
    if is_dir {
        "📁"@
    } else {
        icon_for_extension(lowercase(extension_or_none(name)))
    }
}

fn icon_of(ext: &str) -> (icon: &'static str)
    ensures
        icon@ == icon_for_extension(ext@),
{
    if text_equals(ext, "rs") {
        "🦀"
    } else if text_equals(ext, "py") {
        "🐍"
    } else if text_equals(ext, "js") || text_equals(ext, "mjs") {
        "🧩"
    } else if text_equals(ext, "ts") || text_equals(ext, "tsx") {
        "🧠"
    } else if text_equals(ext, "java") {
        "☕"
    } else if text_equals(ext, "cpp") || text_equals(ext, "cc") || text_equals(ext, "cxx") || text_equals(ext, "hpp") || text_equals(ext, "h") || text_equals(ext, "c") {
        "⚙️"
    } else if text_equals(ext, "go") {
        "🐹"
    } else if text_equals(ext, "php") {
        "🐘"
    } else if text_equals(ext, "rb") {
        "💎"
    } else if text_equals(ext, "swift") {
        "🕊️"
    } else if text_equals(ext, "kt") || text_equals(ext, "kts") {
        "🤖"
    } else if text_equals(ext, "dart") {
        "🎯"
    } else if text_equals(ext, "lua") {
        "🌙"
    } else if text_equals(ext, "html") {
        "🌐"
    } else if text_equals(ext, "css") || text_equals(ext, "scss") || text_equals(ext, "less") {
        "🎨"
    } else if text_equals(ext, "sql") {
        "🗄️"
    } else if text_equals(ext, "toml") || text_equals(ext, "yaml") || text_equals(ext, "yml") || text_equals(ext, "json") || text_equals(ext, "ini") {
        "⚙️"
    } else if text_equals(ext, "lock") {
        "🔒"
    } else if text_equals(ext, "sh") || text_equals(ext, "bash") || text_equals(ext, "zsh") || text_equals(ext, "ps1") {
        "💻"
    } else if text_equals(ext, "env") {
        "🌱"
    } else if text_equals(ext, "dockerfile") {
        "🐳"
    } else if text_equals(ext, "makefile") || text_equals(ext, "mk") {
        "🔧"
    } else if text_equals(ext, "md") || text_equals(ext, "markdown") {
        "📝"
    } else if text_equals(ext, "txt") {
        "📄"
    } else if text_equals(ext, "pdf") {
        "📕"
    } else if text_equals(ext, "doc") || text_equals(ext, "docx") {
        "📘"
    } else if text_equals(ext, "xls") || text_equals(ext, "xlsx") || text_equals(ext, "ods") {
        "📗"
    } else if text_equals(ext, "ppt") || text_equals(ext, "pptx") || text_equals(ext, "odp") {
        "📙"
    } else if text_equals(ext, "rtf") {
        "📜"
    } else if text_equals(ext, "zip") || text_equals(ext, "gz") || text_equals(ext, "tar") || text_equals(ext, "rar") || text_equals(ext, "7z") || text_equals(ext, "bz2") {
        "🗜️"
    } else if text_equals(ext, "iso") {
        "💿"
    } else if text_equals(ext, "png") || text_equals(ext, "jpg") || text_equals(ext, "jpeg") || text_equals(ext, "gif") || text_equals(ext, "bmp") || text_equals(ext, "svg") || text_equals(ext, "ico") || text_equals(ext, "webp") {
        "🖼️"
    } else if text_equals(ext, "psd") || text_equals(ext, "xcf") {
        "🎨"
    } else if text_equals(ext, "mp3") || text_equals(ext, "wav") || text_equals(ext, "flac") || text_equals(ext, "ogg") || text_equals(ext, "m4a") {
        "🎵"
    } else if text_equals(ext, "mp4") || text_equals(ext, "mkv") || text_equals(ext, "avi") || text_equals(ext, "mov") || text_equals(ext, "webm") {
        "🎞️"
    } else if text_equals(ext, "srt") || text_equals(ext, "vtt") {
        "💬"
    } else if text_equals(ext, "csv") || text_equals(ext, "tsv") || text_equals(ext, "xml") {
        "📊"
    } else if text_equals(ext, "db") || text_equals(ext, "sqlite") || text_equals(ext, "db3") {
        "🗃️"
    } else if text_equals(ext, "log") {
        "📜"
    } else if text_equals(ext, "exe") || text_equals(ext, "bin") || text_equals(ext, "app") || text_equals(ext, "msi") {
        "⚡"
    } else if text_equals(ext, "dll") || text_equals(ext, "so") || text_equals(ext, "dylib") {
        "🧱"
    } else if text_equals(ext, "bat") || text_equals(ext, "cmd") {
        "🪟"
    } else if text_equals(ext, "jsonl") || text_equals(ext, "ndjson") {
        "🌐"
    } else if text_equals(ext, "wasm") {
        "🧬"
    } else if text_equals(ext, "pem") || text_equals(ext, "crt") || text_equals(ext, "cer") || text_equals(ext, "key") {
        "🔐"
    } else if text_equals(ext, "conf") || text_equals(ext, "cfg") {
        "🧩"
    } else {
        "📄"
    }
}

/// Returns the icon for an entry with the given file name.
pub fn get_icon_for_path(file_name: &str, is_dir: bool) -> (icon: String)
    ensures
        icon@ == icon_text(file_name@, is_dir),
{
    if is_dir {
        return String::from_str("📁");
    }
    let ext = match extension_of(file_name) {
        Some(e) => to_lowercase(e.as_str()),
        None => {
            proof {
                reveal_strlit("");
                assert(""@ =~= Seq::<char>::empty());
            }
            to_lowercase("")
        },
    };
    String::from_str(icon_of(ext.as_str()))
}

} // verus!
