//! Images attached to journal entries.

use crate::error::AppError;
use crate::text::{
    from_chars, is_alphanumeric, to_chars, to_lowercase, unicode_alphanumeric, unicode_lowercase,
};
use vstd::prelude::*;

verus! {

/// Metadata for an image attached to a journal entry.
#[derive(Debug, Clone)]
pub struct EntryImage {
    pub id: String,
    pub entry_id: String,
    pub filename: String,
    pub relative_path: String,
    pub mime_type: Option<String>,
    pub file_size: Option<i64>,
    pub width: Option<i32>,
    pub height: Option<i32>,
    pub created_at: String,
}

/// Parameters for inserting a new image.
#[derive(Debug)]
pub struct InsertImageParams {
    pub entry_id: String,
    pub filename: String,
    pub relative_path: String,
    pub mime_type: Option<String>,
    pub file_size: Option<i64>,
    pub width: Option<i32>,
    pub height: Option<i32>,
}

/// Characters of a file name that are kept at most.
pub const MAX_NAME_CHARS: usize = 50;

/// The extension given to a file whose name has none.
pub const DEFAULT_EXTENSION: &'static str = "png";

/// The extension of the file name `name`, as `Path::extension` reads it on
/// the platform that the crate is built for: what follows the last dot of
/// the final component, if anything.
pub uninterp spec fn path_extension(name: Seq<char>) -> Option<Seq<char>>;

/// Calls `Path::extension` on `filename` taken as a path. An extension that
/// is not valid Unicode counts as none. The result is named
/// [`path_extension`].
#[verifier::external_body]
fn extension_of(filename: &str) -> (extension: Option<String>)
    ensures
        extension is Some <==> path_extension(filename@) is Some,
        extension matches Some(text) ==> Some(text@) == path_extension(filename@),
{
    std::path::Path::new(filename).extension().and_then(|e| e.to_str()).map(|e| e.to_string())
}

/// `c` may stand in a stored file name: a letter, a digit, a hyphen, an
/// underscore or a dot.
pub open spec fn allowed(c: char) -> bool {
    unicode_alphanumeric(c) || c == '-' || c == '_' || c == '.'
}

/// The allowed characters of `name`, in order.
pub open spec fn allowed_chars(name: Seq<char>) -> Seq<char>
    decreases name.len(),
{
    if name.len() == 0 {
        Seq::empty()
    } else if allowed(name.last()) {
        allowed_chars(name.drop_last()).push(name.last())
    } else {
        allowed_chars(name.drop_last())
    }
}

/// `name` without problematic characters, 50 characters at most.
pub open spec fn sanitized(name: Seq<char>) -> Seq<char> {
    if allowed_chars(name).len() > MAX_NAME_CHARS {
        allowed_chars(name).take(MAX_NAME_CHARS as int)
    } else {
        allowed_chars(name)
    }
}

/// The bytes that every PNG file starts with.
pub open spec fn png_signature() -> Seq<u8> {
    seq![0x89u8, 0x50u8, 0x4Eu8, 0x47u8, 0x0Du8, 0x0Au8, 0x1Au8, 0x0Au8]
}

/// `data` is long enough for a PNG header and starts with the signature.
pub open spec fn looks_like_png(data: Seq<u8>) -> bool {
    data.len() > 24 && data.subrange(0, 8) == png_signature()
}

/// The number that four bytes spell, most significant byte first.
pub open spec fn big_endian(b0: u8, b1: u8, b2: u8, b3: u8) -> int {
    b0 * 16777216 + b1 * 65536 + b2 * 256 + b3
}

/// An unsigned 32-bit number read as a signed one.
pub open spec fn as_signed(value: int) -> int {
    if value < 2147483648 {
        value
    } else {
        value - 4294967296
    }
}

/// The MIME type for a file extension, whatever its case.
pub open spec fn mime_type(extension: Seq<char>) -> Option<Seq<char>> {
    let lower = unicode_lowercase(extension);
    if lower == "png"@ {
        Some("image/png"@)
    } else if lower == "jpg"@ || lower == "jpeg"@ {
        Some("image/jpeg"@)
    } else if lower == "gif"@ {
        Some("image/gif"@)
    } else if lower == "webp"@ {
        Some("image/webp"@)
    } else {
        None
    }
}

/// The extension under which an upload named `filename` is stored.
pub open spec fn stored_extension(filename: Seq<char>) -> Seq<char> {
    match path_extension(filename) {
        Some(extension) => extension,
        None => DEFAULT_EXTENSION@,
    }
}

/// The name under which an upload is stored: a unique id, the sanitized
/// name, and the extension.
pub open spec fn stored_name(unique_id: Seq<char>, filename: Seq<char>) -> Seq<char> {
    unique_id + "_"@ + sanitized(filename) + "."@ + stored_extension(filename)
}

/// Where the image of an entry is stored, relative to the data directory.
pub open spec fn stored_path(entry_id: Seq<char>, stored: Seq<char>) -> Seq<char> {
    "images/"@ + entry_id + "/"@ + stored
}

/// Sanitize a filename to remove problematic characters.
pub fn sanitize_filename(name: &str) -> (clean: String)
    ensures
        clean@ == sanitized(name@),
{
    let chars = to_chars(name);
    let mut kept: Vec<char> = Vec::new();
    let mut i: usize = 0;
    assert(chars@.take(0) =~= Seq::empty());
    while i < chars.len()
        invariant
            i <= chars.len(),
            chars@ == name@,
            kept@ == allowed_chars(chars@.take(i as int)),
        decreases chars.len() - i,
    {
        assert(chars@.take(i + 1).drop_last() =~= chars@.take(i as int));
        let c = chars[i];
        if is_alphanumeric(c) || c == '-' || c == '_' || c == '.' {
            kept.push(c);
        }
        i += 1;
    }
    assert(chars@.take(chars.len() as int) =~= chars@);
    let end = if kept.len() > MAX_NAME_CHARS {
        MAX_NAME_CHARS
    } else {
        kept.len()
    };
    assert(kept@.subrange(0, end as int) =~= sanitized(name@));
    from_chars(&kept, 0, end)
}

fn read_big_endian(data: &[u8], at: usize) -> (value: i32)
    requires
        at + 4 <= data.len(),
    ensures
        value == as_signed(big_endian(data[at as int], data[at + 1], data[at + 2], data[at + 3])),
{
    let value: u32 = data[at] as u32 * 16777216 + data[at + 1] as u32 * 65536 + data[at + 2] as u32
        * 256 + data[at + 3] as u32;
    if value < 2147483648 {
        value as i32
    } else {
        (value as i64 - 4294967296) as i32
    }
}

/// Try to get image dimensions from raw bytes: width and height of what
/// looks like a PNG file, as its header gives them, and nothing for
/// anything else.
pub fn get_image_dimensions(data: &[u8]) -> (dimensions: (Option<i32>, Option<i32>))
    ensures
        !looks_like_png(data@) ==> dimensions == (None::<i32>, None::<i32>),
        looks_like_png(data@) ==> (dimensions.0 matches Some(width) && width == as_signed(
            big_endian(data[16], data[17], data[18], data[19]),
        )),
        looks_like_png(data@) ==> (dimensions.1 matches Some(height) && height == as_signed(
            big_endian(data[20], data[21], data[22], data[23]),
        )),
{
    if data.len() > 24 && data[0] == 0x89 && data[1] == 0x50 && data[2] == 0x4E && data[3] == 0x47
        && data[4] == 0x0D && data[5] == 0x0A && data[6] == 0x1A && data[7] == 0x0A {
        assert(data@.subrange(0, 8) =~= png_signature());
        return (Some(read_big_endian(data, 16)), Some(read_big_endian(data, 20)));
    }
    assert(!looks_like_png(data@)) by {
        if data.len() > 24 {
            let head = data@.subrange(0, 8);
            assert(head[0] == data[0] && head[1] == data[1] && head[2] == data[2] && head[3]
                == data[3]);
            assert(head[4] == data[4] && head[5] == data[5] && head[6] == data[6] && head[7]
                == data[7]);
        }
    }
    (None, None)
}

/// The MIME type for a file extension, whatever its case; `None` for an
/// extension that names no image type known here.
pub fn mime_type_for(extension: &str) -> (mime: Option<String>)
    ensures
        mime is Some <==> mime_type(extension@) is Some,
        mime matches Some(text) ==> Some(text@) == mime_type(extension@),
{
    let lower = to_lowercase(extension);
    if lower == String::from_str("png") {
        Some(String::from_str("image/png"))
    } else if lower == String::from_str("jpg") || lower == String::from_str("jpeg") {
        Some(String::from_str("image/jpeg"))
    } else if lower == String::from_str("gif") {
        Some(String::from_str("image/gif"))
    } else if lower == String::from_str("webp") {
        Some(String::from_str("image/webp"))
    } else {
        None
    }
}

/// What is recorded of an uploaded image: the name and the place under
/// which it is stored, its type, its size and its dimensions. `unique_id`
/// keeps uploads of the same name apart.
pub fn plan_upload(entry_id: String, filename: &str, unique_id: &str, image_data: &[u8]) -> (params:
    InsertImageParams)
    ensures
        params.entry_id@ == entry_id@,
        params.filename@ == stored_name(unique_id@, filename@),
        params.relative_path@ == stored_path(entry_id@, stored_name(unique_id@, filename@)),
        params.mime_type is Some <==> mime_type(stored_extension(filename@)) is Some,
        params.mime_type matches Some(text) ==> Some(text@) == mime_type(
            stored_extension(filename@),
        ),
        (params.file_size matches Some(size) && size == if image_data.len() > i64::MAX {
            i64::MAX as int
        } else {
            image_data.len() as int
        }),
        !looks_like_png(image_data@) ==> params.width is None && params.height is None,
        looks_like_png(image_data@) ==> params.width is Some && params.height is Some,
{
    let extension = match extension_of(filename) {
        Some(text) => text,
        None => String::from_str(DEFAULT_EXTENSION),
    };
    let mut stored = String::from_str(unique_id);
    stored.append("_");
    stored.append(sanitize_filename(filename).as_str());
    stored.append(".");
    stored.append(extension.as_str());
    let mut relative_path = String::from_str("images/");
    relative_path.append(entry_id.as_str());
    relative_path.append("/");
    relative_path.append(stored.as_str());
    let (width, height) = get_image_dimensions(image_data);
    let size = if image_data.len() as u64 > i64::MAX as u64 {
        i64::MAX
    } else {
        image_data.len() as i64
    };
    InsertImageParams {
        entry_id,
        filename: stored,
        relative_path,
        mime_type: mime_type_for(extension.as_str()),
        file_size: Some(size),
        width,
        height,
    }
}

/// The error for an image that the store does not have.
pub fn image_not_found(image_id: &str) -> (error: AppError)
    ensures
        error is NotFound,
        error.reason() == "Image not found: "@ + image_id@,
{
    let mut message = String::from_str("Image not found: ");
    message.append(image_id);
    AppError::NotFound(message)
}

} // verus!
