//! What a user attaches to a message: files, selections and documents.

use crate::json::Json;
use crate::json;
use crate::message::opt_is;
use crate::paths;
use crate::text;
use vstd::prelude::*;

verus! {

/// A file, a selection or a directory of the workspace.
#[derive(Debug, PartialEq, Eq)]
pub struct AttachedContextItem {
    pub abs_path: String,
    /// `file`, `selection` or `directory`.
    pub context_type: String,
    pub start_line: Option<u32>,
    pub end_line: Option<u32>,
}

/// The file is a document that has to be extracted, by its extension.
pub open spec fn is_document(path: Seq<char>) -> bool {
    let ext = paths::extension_of(path);
    ext == Some("pdf"@) || ext == Some("docx"@) || ext == Some("pptx"@) || ext == Some("xlsx"@)
}

/// The lines that are meant, in words.
pub open spec fn line_hint(start: Option<u32>, end: Option<u32>) -> Seq<char> {
    match start {
        Some(s) => match end {
            Some(e) => if s != e {
                " (lines "@ + text::decimal(s as nat) + "–"@ + text::decimal(e as nat) + ")"@
            } else {
                " (line "@ + text::decimal(s as nat) + ")"@
            },
            None => " (line "@ + text::decimal(s as nat) + ")"@,
        },
        None => Seq::empty(),
    }
}

/// What is said of an attached file or selection: where it is, and how to read
/// it.
pub open spec fn attachment_hint(item: AttachedContextItem) -> Seq<char> {
    if is_document(item.abs_path@) {
        "- `"@ + item.abs_path@
            + "` — Use `doc_reader` to extract text from this document."@
    } else if item.context_type@ == "selection"@ && (item.start_line is Some || item.end_line is Some) {
        "- `"@ + item.abs_path@ + "`"@ + line_hint(item.start_line, item.end_line)
            + " — Use `read_file` to read the specified lines."@
    } else {
        "- `"@ + item.abs_path@ + "` — Use `read_file` to read this file when needed."@
    }
}

/// What is said of the first `n` items. Directories are passed over.
pub open spec fn attachment_hints(items: Seq<AttachedContextItem>, n: int) -> Seq<Seq<char>>
    decreases n,
{
    if n <= 0 {
        Seq::empty()
    } else if items[n - 1].context_type@ == "directory"@ {
        attachment_hints(items, n - 1)
    } else {
        attachment_hints(items, n - 1).push(attachment_hint(items[n - 1]))
    }
}

fn names_document(path: &str) -> (r: bool)
    ensures
        r == is_document(path@),
{
    let ext: Option<String> = paths::extension(path);
    opt_is(&ext, "pdf") || opt_is(&ext, "docx") || opt_is(&ext, "pptx") || opt_is(&ext, "xlsx")
}

fn lines_meant(start: Option<u32>, end: Option<u32>) -> (r: String)
    ensures
        r@ == line_hint(start, end),
{
    match start {
        Some(s) => {
            let range: bool = match end {
                Some(e) => s != e,
                None => false,
            };
            let mut r: String = String::new();
            if range {
                r.append(" (lines ");
                r.append(text::decimal_text(s as u64).as_str());
                r.append("–");
                if let Some(e) = end {
                    r.append(text::decimal_text(e as u64).as_str());
                }
                r.append(")");
            } else {
                r.append(" (line ");
                r.append(text::decimal_text(s as u64).as_str());
                r.append(")");
            }
            proof {
                assert(r@ =~= line_hint(start, end));
            }
            r
        },
        None => {
            let r: String = String::new();
            proof {
                assert(r@ =~= Seq::empty());
            }
            r
        },
    }
}

fn hint_of(item: &AttachedContextItem) -> (r: String)
    ensures
        r@ == attachment_hint(*item),
{
    let mut r: String = "- `".to_string();
    r.append(item.abs_path.as_str());
    let has_lines: bool = text::same_text(item.context_type.as_str(), "selection") && (
    item.start_line.is_some() || item.end_line.is_some());
    if names_document(item.abs_path.as_str()) {
        r.append("` — Use `doc_reader` to extract text from this document.");
    } else if has_lines {
        r.append("`");
        r.append(lines_meant(item.start_line, item.end_line).as_str());
        r.append(" — Use `read_file` to read the specified lines.");
    } else {
        r.append("` — Use `read_file` to read this file when needed.");
    }
    r
}

/// What is said of the attached files and selections, so that their contents can
/// be read when they are needed.
pub fn build_attached_context_blocks(items: &Vec<AttachedContextItem>) -> (r: Vec<String>)
    ensures
        text::texts(r@) == attachment_hints(items@, items@.len() as int),
{
    let mut r: Vec<String> = Vec::new();
    let mut i: usize = 0;
    proof {
        assert(text::texts(r@) =~= Seq::empty());
    }
    while i < items.len()
        invariant
            i <= items@.len(),
            text::texts(r@) == attachment_hints(items@, i as int),
        decreases items@.len() - i,
    {
        if !text::same_text(items[i].context_type.as_str(), "directory") {
            let ghost before: Seq<String> = r@;
            r.push(hint_of(&items[i]));
            proof {
                assert(text::texts(r@) =~= text::texts(before).push(
                    attachment_hint(items@[i as int]),
                ));
            }
        }
        i = i + 1;
    }
    r
}

/// A document that the user uploaded.
#[derive(Debug, PartialEq, Eq)]
pub struct DocumentRef {
    pub abs_path: String,
    pub filename: String,
    pub format: String,
}

/// The text of a member, or `default`.
pub open spec fn text_or(j: json::JsonView, key: Seq<char>, default: Seq<char>) -> Seq<char> {
    match j.str_at(key) {
        Some(s) => s,
        None => default,
    }
}

fn read_text_or(j: &Json, key: &str, default: &str) -> (r: String)
    ensures
        r@ == text_or(j@, key@, default@),
{
    match j.str_at(key) {
        Some(s) => s,
        None => default.to_string(),
    }
}

/// What a document's record says.
pub open spec fn document_view(d: DocumentRef) -> (Seq<char>, Seq<char>, Seq<char>) {
    (d.abs_path@, d.filename@, d.format@)
}

/// What each document's record says.
pub open spec fn document_views(ds: Seq<DocumentRef>) -> Seq<(Seq<char>, Seq<char>, Seq<char>)> {
    ds.map_values(|d: DocumentRef| document_view(d))
}

/// The documents of the first `n` records. One without a path is passed over.
pub open spec fn documents_of(js: Seq<json::JsonView>, n: int) -> Seq<
    (Seq<char>, Seq<char>, Seq<char>),
>
    decreases n,
{
    if n <= 0 {
        Seq::empty()
    } else {
        let j = js[n - 1];
        let path = text_or(j, "abs_path"@, Seq::empty());
        if path.len() == 0 {
            documents_of(js, n - 1)
        } else {
            documents_of(js, n - 1).push(
                (path, text_or(j, "filename"@, "document"@), text_or(j, "format"@, "unknown"@)),
            )
        }
    }
}

/// The documents to extract.
pub fn documents_to_extract(records: &Vec<Json>) -> (r: Vec<DocumentRef>)
    ensures
        document_views(r@) == documents_of(json::views(records@), records@.len() as int),
{
    let mut r: Vec<DocumentRef> = Vec::new();
    let mut i: usize = 0;
    proof {
        assert(document_views(r@) =~= Seq::empty());
        reveal_strlit("");
        assert(""@ =~= Seq::empty());
    }
    while i < records.len()
        invariant
            i <= records@.len(),
            ""@ == Seq::<char>::empty(),
            document_views(r@) == documents_of(json::views(records@), i as int),
        decreases records@.len() - i,
    {
        let abs_path: String = read_text_or(&records[i], "abs_path", "");
        if !abs_path.as_str().is_empty() {
            let ghost before: Seq<DocumentRef> = r@;
            let d: DocumentRef = DocumentRef {
                abs_path,
                filename: read_text_or(&records[i], "filename", "document"),
                format: read_text_or(&records[i], "format", "unknown"),
            };
            let ghost v: (Seq<char>, Seq<char>, Seq<char>) = document_view(d);
            r.push(d);
            proof {
                assert(document_views(r@) =~= document_views(before).push(v));
            }
        }
        i = i + 1;
    }
    r
}

/// What came of the extraction of a document.
#[derive(Debug, PartialEq, Eq)]
pub enum Extraction {
    Text(String),
    Failed(String),
}

/// What is said of an extraction.
pub open spec fn extraction_text(e: Extraction) -> Seq<char> {
    match e {
        Extraction::Text(t) => if text::trimmed(t@).len() == 0 {
            "[Document is empty or contains no extractable text]"@
        } else {
            t@
        },
        Extraction::Failed(m) => "[Document extraction failed: "@ + m@ + "]"@,
    }
}

/// The block of a document in a message.
pub open spec fn document_block(d: (Seq<char>, Seq<char>, Seq<char>), e: Extraction) -> Seq<char> {
    "<attached_document filename=\""@ + d.1 + "\" format=\""@ + d.2 + "\">\n"@ + extraction_text(e)
        + "\n</attached_document>"@
}

/// The blocks of documents in a message.
pub open spec fn document_blocks(ds: Seq<DocumentRef>, es: Seq<Extraction>) -> Seq<Seq<char>> {
    Seq::new(ds.len(), |i: int| document_block(document_view(ds[i]), es[i]))
}

fn block_of(d: &DocumentRef, e: &Extraction) -> (r: String)
    ensures
        r@ == document_block(document_view(*d), *e),
{
    let mut r: String = "<attached_document filename=\"".to_string();
    r.append(d.filename.as_str());
    r.append("\" format=\"");
    r.append(d.format.as_str());
    r.append("\">\n");
    let said: String = match e {
        Extraction::Text(t) => {
            let bare: String = text::trim(t.as_str());
            if bare.as_str().is_empty() {
                "[Document is empty or contains no extractable text]".to_string()
            } else {
                t.clone()
            }
        },
        Extraction::Failed(m) => {
            let mut s: String = "[Document extraction failed: ".to_string();
            s.append(m.as_str());
            s.append("]");
            s
        },
    };
    r.append(said.as_str());
    r.append("\n</attached_document>");
    r
}

/// The blocks of documents in a message, from what came of their extraction.
pub fn build_document_blocks(documents: &Vec<DocumentRef>, extracted: &Vec<Extraction>) -> (r: Vec<
    String,
>)
    requires
        documents@.len() == extracted@.len(),
    ensures
        text::texts(r@) == document_blocks(documents@, extracted@),
{
    let mut r: Vec<String> = Vec::new();
    let mut i: usize = 0;
    while i < documents.len()
        invariant
            i <= documents@.len() == extracted@.len(),
            r@.len() == i,
            forall|k: int|
                0 <= k < i ==> (#[trigger] r@[k])@ == document_block(
                    document_view(documents@[k]),
                    extracted@[k],
                ),
        decreases documents@.len() - i,
    {
        r.push(block_of(&documents[i], &extracted[i]));
        i = i + 1;
    }
    proof {
        assert(text::texts(r@) =~= document_blocks(documents@, extracted@));
    }
    r
}

/// `content` and an empty line, or nothing where `content` is blank.
pub open spec fn lead(content: Seq<char>) -> Seq<char> {
    if text::trimmed(content).len() == 0 {
        Seq::empty()
    } else {
        content + "\n\n"@
    }
}

/// What is said before the documents of a message.
pub const DOCUMENTS_NOTE: &'static str = "The following documents were uploaded by the user. Their contents have been pre-extracted and included below. You do NOT need to use the `doc_reader` tool for these files.\n\n";

/// What is said before the attached files of a message.
pub const FILES_NOTE: &'static str = "The following workspace files were attached by the user. Use the suggested tools to read them when you need their contents.\n\n";

/// A message with blocks behind it, where there are any.
pub open spec fn with_blocks(
    content: Seq<char>,
    note: Seq<char>,
    blocks: Seq<Seq<char>>,
    sep: Seq<char>,
) -> Seq<char> {
    if blocks.len() == 0 {
        content
    } else {
        lead(content) + note + text::joined(blocks, sep)
    }
}

/// A message with what was attached to it.
pub open spec fn enriched(
    content: Seq<char>,
    documents: Seq<Seq<char>>,
    hints: Seq<Seq<char>>,
) -> Seq<char> {
    with_blocks(
        with_blocks(content, DOCUMENTS_NOTE@, documents, "\n\n"@),
        FILES_NOTE@,
        hints,
        "\n"@,
    )
}

fn add_blocks(content: String, note: &str, blocks: &Vec<String>, sep: &str) -> (r: String)
    ensures
        r@ == with_blocks(content@, note@, text::texts(blocks@), sep@),
{
    if blocks.len() == 0 {
        return content;
    }
    let bare: String = text::trim(content.as_str());
    let mut r: String = String::new();
    if !bare.as_str().is_empty() {
        r.append(content.as_str());
        r.append("\n\n");
    }
    proof {
        assert(r@ =~= lead(content@));
    }
    r.append(note);
    r.append(text::join(blocks, sep).as_str());
    r
}

/// A message with the blocks of its documents and with what is said of its files.
pub fn enrich_message(content: &str, documents: &Vec<String>, hints: &Vec<String>) -> (r: String)
    ensures
        r@ == enriched(content@, text::texts(documents@), text::texts(hints@)),
{
    let with_documents: String = add_blocks(
        content.to_string(),
        DOCUMENTS_NOTE,
        documents,
        "\n\n",
    );
    add_blocks(with_documents, FILES_NOTE, hints, "\n")
}

/// Why a document of this name cannot be extracted.
pub fn unsupported_format(path: &str) -> (r: String)
    ensures
        r@ == "Unsupported document format: "@ + (match paths::extension_of(path@) {
            Some(ext) => ext,
            None => "(none)"@,
        }),
{
    let mut r: String = "Unsupported document format: ".to_string();
    match paths::extension(path) {
        Some(ext) => {
            r.append(ext.as_str());
        },
        None => {
            r.append("(none)");
        },
    }
    r
}

} // verus!
