//! What the desktop side asks of the system: its dialogs and its file manager.

use vstd::prelude::*;

verus! {

/// The label of the filter for pictures.
pub const PICTURES_LABEL: &'static str = "图片";

/// A filter for the files that a dialog shows: those with one of the extensions.
#[derive(Debug)]
pub struct FileFilter {
    pub label: String,
    pub extensions: Vec<String>,
}

/// The extensions of common picture formats.
pub open spec fn picture_extensions() -> Seq<Seq<char>> {
    seq!["png"@, "jpg"@, "jpeg"@, "gif"@, "webp"@, "bmp"@, "svg"@, "ico"@]
}

/// The filter for the dialog with which a file is picked: none, unless pictures are
/// asked for.
pub fn pick_file(image: Option<bool>) -> (r: Option<FileFilter>)
    ensures
        r is Some <==> image == Some(true),
        r matches Some(filter) ==> {
            &&& filter.label@ == PICTURES_LABEL@
            &&& crate::records::views(filter.extensions@) == picture_extensions()
        },
{
    let pictures = match image {
        Some(b) => b,
        None => false,
    };
    if !pictures {
        return None;
    }
    let mut extensions: Vec<String> = Vec::new();
    extensions.push("png".to_string());
    extensions.push("jpg".to_string());
    extensions.push("jpeg".to_string());
    extensions.push("gif".to_string());
    extensions.push("webp".to_string());
    extensions.push("bmp".to_string());
    extensions.push("svg".to_string());
    extensions.push("ico".to_string());
    assert(crate::records::views(extensions@) =~= picture_extensions());
    Some(FileFilter { label: PICTURES_LABEL.to_string(), extensions })
}

/// The systems whose file managers are known.
#[derive(Debug, Clone, Copy, PartialEq, Eq, Structural)]
pub enum Platform {
    Windows,
    MacOs,
    Linux,
}

/// A program that is to be run with one argument.
#[derive(Debug)]
pub struct Invocation {
    pub program: String,
    pub argument: String,
}

/// The program that shows a path in the file manager of a system.
pub open spec fn file_manager(platform: Platform) -> Seq<char> {
    match platform {
        Platform::Windows => "explorer"@,
        Platform::MacOs => "open"@,
        Platform::Linux => "xdg-open"@,
    }
}

/// What is to be run to show a path in the file manager.
pub fn open_in_explorer(platform: Platform, path: String) -> (r: Invocation)
    ensures
        r.program@ == file_manager(platform),
        r.argument == path,
{
    let program = match platform {
        Platform::Windows => "explorer",
        Platform::MacOs => "open",
        Platform::Linux => "xdg-open",
    };
    Invocation { program: program.to_string(), argument: path }
}

} // verus!
