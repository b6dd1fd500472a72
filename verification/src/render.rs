//! What is drawn for a row of the explorer, and how a name is to be styled.

use crate::config::Args;
use crate::format::{decimal, push_decimal, size, size_text};
use crate::record::opt_view;
use crate::text::{lowercase, text_equals, to_lowercase};
use crate::tree::EntryView;
use crate::tui::TuiEntry;
use vstd::prelude::*;
use vstd::string::*;

verus! {

/// The texts of one row, left to right.
#[derive(Debug)]
pub struct RowText {
    pub permissions: String,
    pub indent: String,
    /// Whether the directory is open, closed, or the row is no directory.
    pub indicator: String,
    pub icon: String,
    pub name: String,
    pub info: String,
}

/// The texts of a row as character sequences.
pub struct RowView {
    pub permissions: Seq<char>,
    pub indent: Seq<char>,
    pub indicator: Seq<char>,
    pub icon: Seq<char>,
    pub name: Seq<char>,
    pub info: Seq<char>,
}

impl View for RowText {
    type V = RowView;

    open spec fn view(&self) -> RowView {
        RowView {
            permissions: self.permissions@,
            indent: self.indent@,
            indicator: self.indicator@,
            icon: self.icon@,
            name: self.name@,
            info: self.info@,
        }
    }
}

/// Four spaces for each level.
pub open spec fn indent_text(depth: nat) -> Seq<char>
    decreases depth,
{
    if depth == 0 {
        Seq::empty()
    } else {
        indent_text((depth - 1) as nat) + "    "@
    }
}

/// The information behind the name: with `info` the size, and for a
/// directory its counts, where they are known; else with `size` the size of
/// a file; else nothing.
pub open spec fn row_info(entry: EntryView, args: Args) -> Seq<char> {
    if args.info {
        if entry.is_directory {
            match (entry.size, entry.files, entry.dirs) {
                (Some(s), Some(f), Some(d)) => "["@ + size_text(s) + ", "@ + decimal(f as nat)
                    + " files, "@ + decimal(d as nat) + " dirs]"@,
                _ => Seq::empty(),
            }
        } else {
            match entry.size {
                Some(s) => "["@ + size_text(s) + "]"@,
                None => Seq::empty(),
            }
        }
    } else if args.size && !entry.is_directory {
        match entry.size {
            Some(s) => "["@ + size_text(s) + "]"@,
            None => Seq::empty(),
        }
    } else {
        Seq::empty()
    }
}

/// What is drawn for an entry.
pub open spec fn row_view(entry: TuiEntry, args: Args) -> RowView {
    let data = entry.data@;
    RowView {
        permissions: if args.permissions {
            match data.permissions {
                Some(p) => p + " "@,
                None => Seq::empty(),
            }
        } else {
            Seq::empty()
        },
        indent: indent_text(data.depth as nat),
        indicator: if data.is_directory {
            if entry.expanded {
                "▼ "@
            } else {
                "▶ "@
            }
        } else {
            "  "@
        },
        icon: match data.icon {
            Some(i) => i + " "@,
            None => Seq::empty(),
        },
        name: data.name,
        info: row_info(data, args),
    }
}

fn bracketed_size(bytes: u64) -> (text: String)
    ensures
        text@ == "["@ + size_text(bytes) + "]"@,
{
    let mut text = String::from_str("[");
    let formatted = size(bytes);
    text.append(formatted.as_str());
    text.append("]");
    text
}

fn info_of_row(entry: &TuiEntry, args: &Args) -> (text: String)
    ensures
        text@ == row_info(entry.data@, *args),
{
    if args.info {
        if entry.data.is_directory {
            match (entry.data.size, entry.data.files, entry.data.dirs) {
                (Some(s), Some(f), Some(d)) => {
                    let mut text = String::from_str("[");
                    let formatted = size(s);
                    text.append(formatted.as_str());
                    text.append(", ");
                    push_decimal(&mut text, f as u128);
                    text.append(" files, ");
                    push_decimal(&mut text, d as u128);
                    text.append(" dirs]");
                    text
                },
                _ => String::new(),
            }
        } else {
            match entry.data.size {
                Some(s) => bracketed_size(s),
                None => String::new(),
            }
        }
    } else if args.size && !entry.data.is_directory {
        match entry.data.size {
            Some(s) => bracketed_size(s),
            None => String::new(),
        }
    } else {
        String::new()
    }
}

fn spaced(text: &Option<String>) -> (out: String)
    ensures
        out@ == match opt_view(*text) {
            Some(t) => t + " "@,
            None => Seq::empty(),
        },
{
    match text {
        Some(t) => {
            let mut out = t.clone();
            out.append(" ");
            out
        },
        None => String::new(),
    }
}

/// Lays out the texts of the row of an entry.
pub fn row_text(entry: &TuiEntry, args: &Args) -> (row: RowText)
    ensures
        row@ == row_view(*entry, *args),
{
    let permissions = if args.permissions {
        spaced(&entry.data.permissions)
    } else {
        String::new()
    };
    let mut indent = String::new();
    let mut level: usize = 0;
    while level < entry.data.depth
        invariant
            level <= entry.data.depth,
            indent@ == indent_text(level as nat),
        decreases entry.data.depth - level,
    {
        indent.append("    ");
        level += 1;
    }
    let indicator = if entry.data.is_directory {
        if entry.expanded {
            "▼ "
        } else {
            "▶ "
        }
    } else {
        "  "
    };
    RowText {
        permissions,
        indent,
        indicator: String::from_str(indicator),
        icon: spaced(&entry.data.icon),
        name: entry.data.name.clone(),
        info: info_of_row(entry, args),
    }
}

/// The blank columns that push the information to the right edge: what is
/// left of the width after the row's texts, the information and a margin of
/// five columns, each taken as a 16-bit number.
pub open spec fn padding_width(width: u16, used: usize, info_len: usize) -> usize {
    let after_used = if width >= used % 65536 {
        width - used % 65536
    } else {
        0
    };
    let after_info = if after_used >= info_len % 65536 {
        after_used - info_len % 65536
    } else {
        0
    };
    if after_info >= 5 {
        (after_info - 5) as usize
    } else {
        0
    }
}

/// Computes the blank columns before the information.
pub fn padding(width: u16, used: usize, info_len: usize) -> (blank: usize)
    ensures
        blank == padding_width(width, used, info_len),
{
    let used16: u16 = (used % 65536) as u16;
    let info16: u16 = (info_len % 65536) as u16;
    let after_used: u16 = if width >= used16 {
        width - used16
    } else {
        0
    };
    let after_info: u16 = if after_used >= info16 {
        after_used - info16
    } else {
        0
    };
    if after_info >= 5 {
        (after_info - 5) as usize
    } else {
        0
    }
}

/// How the name of an entry is set off when it is printed.
#[derive(Debug, Clone, Copy, PartialEq, Eq, Structural)]
pub enum NameClass {
    Directory,
    Executable,
    Source,
    Archive,
    Image,
    Video,
    Document,
    /// A file with an extension of no known class.
    OtherFile,
    /// A file without extension, or a node of which nothing is known.
    Plain,
}

/// The class of a lowercase extension.
pub open spec fn extension_class(ext: Seq<char>) -> NameClass {
    if ext == "rs"@ || ext == "c"@ || ext == "cpp"@ || ext == "py"@ || ext == "php"@ || ext
        == "html"@ || ext == "css"@ || ext == "js"@ {
        NameClass::Source
    } else if ext == "zip"@ || ext == "tar"@ || ext == "gz"@ || ext == "rar"@ || ext == "7zip"@ {
        NameClass::Archive
    } else if ext == "psd"@ || ext == "svg"@ || ext == "jpg"@ || ext == "jpeg"@ || ext == "png"@
        || ext == "gif"@ || ext == "bmp"@ || ext == "tiff"@ {
        NameClass::Image
    } else if ext == "mp4"@ || ext == "mkv"@ || ext == "avi"@ || ext == "mov"@ || ext == "flv"@
        || ext == "wmv"@ {
        NameClass::Video
    } else if ext == "pdf"@ || ext == "doc"@ || ext == "docx"@ || ext == "xls"@ || ext == "xlsx"@
        || ext == "ppt"@ || ext == "pptx"@ || ext == "pps"@ || ext == "ppsx"@ {
        NameClass::Document
    } else {
        NameClass::OtherFile
    }
}

/// The class of a node: nothing is set off where its metadata could not be
/// read; else a directory, an executable, or a file by its extension.
pub open spec fn name_class(known: bool, is_dir: bool, executable: bool, ext: Option<Seq<char>>) -> NameClass {
    if !known {
        NameClass::Plain
    } else if is_dir {
        NameClass::Directory
    } else if executable {
        NameClass::Executable
    } else {
        match ext {
            Some(e) => extension_class(lowercase(e)),
            None => NameClass::Plain,
        }
    }
}

fn class_of_extension(ext: &str) -> (class: NameClass)
    ensures
        class == extension_class(ext@),
{
    if text_equals(ext, "rs") || text_equals(ext, "c") || text_equals(ext, "cpp") || text_equals(
        ext,
        "py",
    ) || text_equals(ext, "php") || text_equals(ext, "html") || text_equals(ext, "css")
        || text_equals(ext, "js") {
        NameClass::Source
    } else if text_equals(ext, "zip") || text_equals(ext, "tar") || text_equals(ext, "gz")
        || text_equals(ext, "rar") || text_equals(ext, "7zip") {
        NameClass::Archive
    } else if text_equals(ext, "psd") || text_equals(ext, "svg") || text_equals(ext, "jpg")
        || text_equals(ext, "jpeg") || text_equals(ext, "png") || text_equals(ext, "gif")
        || text_equals(ext, "bmp") || text_equals(ext, "tiff") {
        NameClass::Image
    } else if text_equals(ext, "mp4") || text_equals(ext, "mkv") || text_equals(ext, "avi")
        || text_equals(ext, "mov") || text_equals(ext, "flv") || text_equals(ext, "wmv") {
        NameClass::Video
    } else if text_equals(ext, "pdf") || text_equals(ext, "doc") || text_equals(ext, "docx")
        || text_equals(ext, "xls") || text_equals(ext, "xlsx") || text_equals(ext, "ppt")
        || text_equals(ext, "pptx") || text_equals(ext, "pps") || text_equals(ext, "ppsx") {
        NameClass::Document
    } else {
        NameClass::OtherFile
    }
}

/// Decides how the name of a node is set off. `known` tells whether the
/// node's metadata could be read.
pub fn classify_name(known: bool, is_dir: bool, executable: bool, ext: &Option<String>) -> (class:
    NameClass)
    ensures
        class == name_class(known, is_dir, executable, opt_view(*ext)),
{
    if !known {
        NameClass::Plain
    } else if is_dir {
        NameClass::Directory
    } else if executable {
        NameClass::Executable
    } else {
        match ext {
            Some(e) => {
                let lower = to_lowercase(e.as_str());
                class_of_extension(lower.as_str())
            },
            None => NameClass::Plain,
        }
    }
}

} // verus!
