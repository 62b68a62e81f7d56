//! What the library writes into files and checks in them: Markdown exports, file names,
//! and backup manifests.

use vstd::prelude::*;
use crate::digest::{sha256_hex, sha256_hex_of};
use crate::error::{AppError, AppErrorV, AppResult};
use crate::json::append;
use crate::models::{BackupManifest, BackupManifestV, Note, NoteV, TagV};
use crate::repo::{Database, list_spec};
use crate::json::{bool_text, bool_word};
use crate::text::{chars_of, control_spec, is_control, string_of, trim, trim_spec};
use crate::transfer::no_flags;

verus! {

// ---------------------------------------------------------------------------
// File names.
// ---------------------------------------------------------------------------

/// Characters that file systems refuse in names.
pub open spec fn forbidden_in_names(c: char) -> bool {
    c == '<' || c == '>' || c == ':' || c == '"' || c == '/' || c == '\\' || c == '|' || c == '?' || c == '*'
}

/// A character made safe for a file name: forbidden and control characters become `_`.
pub open spec fn safe_char(c: char) -> char {
    if forbidden_in_names(c) || control_spec(c) {
        '_'
    } else {
        c
    }
}

pub open spec fn sanitize_spec(s: Seq<char>) -> Seq<char> {
    s.map_values(|c: char| safe_char(c))
}

/// At most the first `n` characters.
pub open spec fn first_chars(s: Seq<char>, n: nat) -> Seq<char> {
    if s.len() > n {
        s.take(n as int)
    } else {
        s
    }
}

/// The file name of an exported note: its title made safe and trimmed (`未命名` when that
/// leaves nothing), cut to sixty characters, then a hyphen, the first eight characters of
/// its id and `.md`.
pub open spec fn file_name_spec(title: Seq<char>, id: Seq<char>) -> Seq<char> {
    let t = trim_spec(sanitize_spec(title));
    let base = if t.len() == 0 {
        "未命名"@
    } else {
        t
    };
    first_chars(base, 60) + "-"@ + first_chars(id, 8) + ".md"@
}

/// Replacing characters by pattern.
pub struct RegexLike;

impl RegexLike {
    /// Replaces each character that file systems refuse in names, and each control
    /// character, by `_`.
    pub fn sanitize(value: &str) -> (r: String)
        ensures
            r@ == sanitize_spec(value@),
    {
        let c = chars_of(value);
        let mut out: Vec<char> = Vec::new();
        let mut i: usize = 0;
        while i < c.len()
            invariant
                i <= c.len(),
                c@ == value@,
                out@ == sanitize_spec(c@.take(i as int)),
            decreases c.len() - i,
        {
            let ch = c[i];
            let bad = ch == '<' || ch == '>' || ch == ':' || ch == '"' || ch == '/' || ch == '\\' || ch == '|' || ch
                == '?' || ch == '*';
            if bad || is_control(ch) {
                out.push('_');
            } else {
                out.push(ch);
            }
            proof {
                assert(out@ =~= sanitize_spec(c@.take(i + 1)));
            }
            i = i + 1;
        }
        proof {
            assert(c@.take(i as int) == c@);
        }
        string_of(out.as_slice())
    }
}

fn first_chars_of(s: &str, n: usize) -> (r: String)
    ensures
        r@ == first_chars(s@, n as nat),
{
    let c = chars_of(s);
    if c.len() <= n {
        return string_of(c.as_slice());
    }
    let mut out: Vec<char> = Vec::new();
    let mut i: usize = 0;
    while i < n
        invariant
            i <= n < c.len(),
            c@ == s@,
            out@ == c@.take(i as int),
        decreases n - i,
    {
        out.push(c[i]);
        i = i + 1;
        assert(out@ =~= c@.take(i as int));
    }
    string_of(out.as_slice())
}

/// The file name an exported note is written under.
pub fn safe_filename(title: &str, id: &str) -> (r: String)
    ensures
        r@ == file_name_spec(title@, id@),
{
    let invalid = RegexLike::sanitize(title);
    let t = trim(invalid.as_str());
    let base = if t.as_str().is_empty() {
        "未命名".to_owned()
    } else {
        t
    };
    let mut name = first_chars_of(base.as_str(), 60);
    append(&mut name, "-");
    append(&mut name, first_chars_of(id, 8).as_str());
    append(&mut name, ".md");
    name
}

// ---------------------------------------------------------------------------
// Markdown.
// ---------------------------------------------------------------------------

/// A text with a backslash before each double quote.
pub open spec fn backslash_quotes(s: Seq<char>) -> Seq<char>
    decreases s.len(),
{
    if s.len() == 0 {
        seq![]
    } else {
        backslash_quotes(s.drop_last()) + if s.last() == '"' {
            seq!['\\', '"']
        } else {
            seq![s.last()]
        }
    }
}

/// The tag names, each quoted, joined by `, `.
pub open spec fn quoted_tags(tags: Seq<TagV>) -> Seq<char>
    decreases tags.len(),
{
    if tags.len() == 0 {
        seq![]
    } else if tags.len() == 1 {
        "\""@ + backslash_quotes(tags[0].name) + "\""@
    } else {
        quoted_tags(tags.drop_last()) + ", \""@ + backslash_quotes(tags.last().name) + "\""@
    }
}

pub open spec fn or_empty(o: Option<Seq<char>>) -> Seq<char> {
    match o {
        Some(s) => s,
        None => seq![],
    }
}

/// A note as Markdown: a front matter block of its fields, then its title as a heading and
/// its content.
pub open spec fn markdown_spec(n: NoteV) -> Seq<char> {
    let category = match n.category {
        Some(c) => c.name,
        None => seq![],
    };
    "---\nid: "@ + n.id + "\ncreated_at: "@ + n.created_at + "\nupdated_at: "@ + n.updated_at + "\ncategory: "@
        + category + "\ntags: ["@ + quoted_tags(n.tags) + "]\nis_todo: "@ + bool_text(n.is_todo) + "\ntodo_status: "@
        + n.todo_status + "\npriority: "@ + n.priority + "\ndue_date: "@ + or_empty(n.due_date) + "\n---\n\n# "@
        + n.title + "\n\n"@ + n.content + "\n"@
}

fn backslash_quotes_of(s: &str) -> (r: String)
    ensures
        r@ == backslash_quotes(s@),
{
    let c = chars_of(s);
    let mut out: Vec<char> = Vec::new();
    let mut i: usize = 0;
    while i < c.len()
        invariant
            i <= c.len(),
            c@ == s@,
            out@ == backslash_quotes(c@.take(i as int)),
        decreases c.len() - i,
    {
        let ch = c[i];
        proof {
            assert(c@.take(i + 1).drop_last() == c@.take(i as int));
        }
        let ghost before = out@;
        if ch == '"' {
            out.push('\\');
            out.push('"');
        } else {
            out.push(ch);
        }
        assert(out@ =~= backslash_quotes(c@.take(i + 1)));
        i = i + 1;
    }
    proof {
        assert(c@.take(i as int) == c@);
    }
    string_of(out.as_slice())
}

/// A note as Markdown.
pub fn markdown_of(n: &Note) -> (r: String)
    ensures
        r@ == markdown_spec(n@),
{
    let mut tags = String::new();
    let mut i: usize = 0;
    while i < n.tags.len()
        invariant
            i <= n.tags.len(),
            tags@ == quoted_tags(n@.tags.take(i as int)),
        decreases n.tags.len() - i,
    {
        proof {
            assert(n@.tags.take(i + 1).drop_last() == n@.tags.take(i as int));
            assert(n@.tags.take(i + 1).last() == n.tags@[i as int]@);
        }
        if i > 0 {
            append(&mut tags, ", \"");
        } else {
            append(&mut tags, "\"");
        }
        append(&mut tags, backslash_quotes_of(n.tags[i].name.as_str()).as_str());
        append(&mut tags, "\"");
        proof {
            if i == 0 {
                assert(n@.tags.take(1) =~= seq![n.tags@[0]@]);
                assert(tags@ =~= quoted_tags(n@.tags.take(1)));
            } else {
                assert(tags@ =~= quoted_tags(n@.tags.take(i + 1)));
            }
        }
        i = i + 1;
    }
    proof {
        assert(n@.tags.take(i as int) == n@.tags);
    }
    let mut s = "---\nid: ".to_owned();
    append(&mut s, n.id.as_str());
    append(&mut s, "\ncreated_at: ");
    append(&mut s, n.created_at.as_str());
    append(&mut s, "\nupdated_at: ");
    append(&mut s, n.updated_at.as_str());
    append(&mut s, "\ncategory: ");
    match &n.category {
        Some(c) => append(&mut s, c.name.as_str()),
        None => {},
    }
    append(&mut s, "\ntags: [");
    append(&mut s, tags.as_str());
    append(&mut s, "]\nis_todo: ");
    append(&mut s, bool_word(n.is_todo).as_str());
    append(&mut s, "\ntodo_status: ");
    append(&mut s, n.todo_status.as_str());
    append(&mut s, "\npriority: ");
    append(&mut s, n.priority.as_str());
    append(&mut s, "\ndue_date: ");
    match &n.due_date {
        Some(d) => append(&mut s, d.as_str()),
        None => {},
    }
    append(&mut s, "\n---\n\n# ");
    append(&mut s, n.title.as_str());
    append(&mut s, "\n\n");
    append(&mut s, n.content.as_str());
    append(&mut s, "\n");
    assert(s@ =~= markdown_spec(n@));
    s
}

/// A Markdown file: its name and text.
pub struct MarkdownFile {
    pub name: String,
    pub text: String,
}

pub struct MarkdownFileV {
    pub name: Seq<char>,
    pub text: Seq<char>,
}

impl View for MarkdownFile {
    type V = MarkdownFileV;

    open spec fn view(&self) -> MarkdownFileV {
        MarkdownFileV { name: self.name@, text: self.text@ }
    }
}

/// The notes a Markdown export writes: those in use, then the archived, newest first.
pub open spec fn markdown_notes(t: crate::tables::TablesV) -> Seq<NoteV> {
    let f = no_flags(t.notes.len());
    list_spec(t, "all"@, 100_000, f) + list_spec(t, "archive"@, 100_000, f)
}

pub open spec fn markdown_file(n: NoteV) -> MarkdownFileV {
    MarkdownFileV { name: file_name_spec(n.title, n.id), text: markdown_spec(n) }
}

impl Database {
    /// The Markdown files of an export, one per note in use or archived.
    pub fn markdown_files(&self) -> (r: Vec<MarkdownFile>)
        ensures
            crate::seqs::vw(r@) == markdown_notes(self@).map_values(|n: NoteV| markdown_file(n)),
    {
        let mut flags: Vec<bool> = Vec::new();
        let mut k: usize = 0;
        while k < self.tables.notes.len()
            invariant
                k <= self.tables.notes.len(),
                flags@ == no_flags(k as nat),
            decreases self.tables.notes.len() - k,
        {
            flags.push(false);
            k = k + 1;
            assert(flags@ =~= no_flags(k as nat));
        }
        let mut notes = self.list_notes_with_days("all", 100_000, &flags);
        let mut archived = self.list_notes_with_days("archive", 100_000, &flags);
        let ghost a = crate::models::note_views(notes@);
        let ghost b = crate::models::note_views(archived@);
        notes.append(&mut archived);
        assert(crate::models::note_views(notes@) =~= a + b);
        let ghost ns = crate::models::note_views(notes@);
        let mut out: Vec<MarkdownFile> = Vec::new();
        let mut i: usize = 0;
        while i < notes.len()
            invariant
                i <= notes.len(),
                ns == crate::models::note_views(notes@),
                out.len() == i,
                forall|j: int| 0 <= j < i ==> #[trigger] out@[j]@ == markdown_file(ns[j]),
            decreases notes.len() - i,
        {
            let n = &notes[i];
            out.push(MarkdownFile { name: safe_filename(n.title.as_str(), n.id.as_str()), text: markdown_of(n) });
            i = i + 1;
        }
        assert(crate::seqs::vw(out@) =~= ns.map_values(|n: NoteV| markdown_file(n)));
        out
    }
}

// ---------------------------------------------------------------------------
// Backups.
// ---------------------------------------------------------------------------

/// The manifest of a backup of the database bytes `db`, written by `app_version` at `now`.
pub open spec fn manifest_spec(db: Seq<u8>, app_version: Seq<char>, now: Seq<char>) -> BackupManifestV {
    BackupManifestV { schema_version: 1, app_version, created_at: now, database_sha256: sha256_hex_of(db) }
}

/// The manifest of a backup of the database bytes.
pub fn backup_manifest(db: &[u8], app_version: &str, now: &str) -> (r: BackupManifest)
    ensures
        r@ == manifest_spec(db@, app_version@, now@),
{
    BackupManifest {
        schema_version: 1,
        app_version: app_version.to_owned(),
        created_at: now.to_owned(),
        database_sha256: sha256_hex(db),
    }
}

/// Whether a backup may be restored: its manifest must be of this version and its
/// checksum that of its database bytes.
pub open spec fn backup_check_spec(m: BackupManifestV, db: Seq<u8>) -> Result<(), AppErrorV> {
    if m.schema_version != 1 {
        Err(AppErrorV::Validation("备份数据库版本不受支持"@))
    } else if sha256_hex_of(db) != m.database_sha256 {
        Err(AppErrorV::Validation("备份文件校验失败，未执行恢复"@))
    } else {
        Ok(())
    }
}

/// Checks a backup before it is restored.
pub fn check_backup(manifest: &BackupManifest, db: &[u8]) -> (r: AppResult<()>)
    ensures
        match backup_check_spec(manifest@, db@) {
            Ok(()) => r is Ok,
            Err(e) => r matches Err(x) && x@ == e,
        },
{
    if manifest.schema_version != 1 {
        return Err(AppError::Validation("备份数据库版本不受支持".to_owned()));
    }
    let checksum = sha256_hex(db);
    if !crate::text::str_eq(checksum.as_str(), manifest.database_sha256.as_str()) {
        return Err(AppError::Validation("备份文件校验失败，未执行恢复".to_owned()));
    }
    Ok(())
}

} // verus!
