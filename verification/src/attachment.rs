//! Attachments: their identifiers, which hold no path of the server, and the search for
//! the file that an identifier means.

use vstd::prelude::*;
use vstd::string::*;
use vstd::utf8::*;

use crate::content::MsgContent;
use crate::outside::{
    base64url_decode, base64url_encode, consume, context_digest, new_context,
};
use crate::text::{
    bytes_eq, clone_text, contains_char, has_control, text_eq, text_len, to_ascii_lowercase,
    to_chars, trim,
};

verus! {

/// The metadata of a file message, with the identifier under which the file can be had.
#[derive(Debug)]
pub struct AttachmentInfo {
    pub id: String,
    pub name: String,
    pub size: Option<u64>,
    pub extension: Option<String>,
    pub md5: Option<String>,
    pub available: bool,
    pub download_url: String,
}

/// What an [`AttachmentInfo`] says.
pub struct AttachmentView {
    pub id: Seq<char>,
    pub name: Seq<char>,
    pub size: Option<u64>,
    pub extension: Option<Seq<char>>,
    pub md5: Option<Seq<char>>,
    pub available: bool,
    pub download_url: Seq<char>,
}

impl View for AttachmentInfo {
    type V = AttachmentView;

    open spec fn view(&self) -> AttachmentView {
        AttachmentView {
            id: self.id@,
            name: self.name@,
            size: self.size,
            extension: crate::text::text_of(self.extension),
            md5: crate::text::text_of(self.md5),
            available: self.available,
            download_url: self.download_url@,
        }
    }
}

impl Clone for AttachmentInfo {
    fn clone(&self) -> (copy: Self)
        ensures
            copy@ == self@,
    {
        AttachmentInfo {
            id: self.id.clone(),
            name: self.name.clone(),
            size: self.size,
            extension: clone_text(&self.extension),
            md5: clone_text(&self.md5),
            available: self.available,
            download_url: self.download_url.clone(),
        }
    }
}

/// What an attachment identifier holds.
#[derive(Debug)]
pub struct AttachmentLocator {
    pub name: String,
    pub size: Option<u64>,
    pub md5: Option<String>,
}

/// What an [`AttachmentLocator`] says.
pub struct LocatorView {
    pub name: Seq<char>,
    pub size: Option<u64>,
    pub md5: Option<Seq<char>>,
}

impl View for AttachmentLocator {
    type V = LocatorView;

    open spec fn view(&self) -> LocatorView {
        LocatorView {
            name: self.name@,
            size: self.size,
            md5: crate::text::text_of(self.md5),
        }
    }
}

/// A file that an attachment identifier was found to mean. The path is that of the
/// operating system, which need not be a text.
#[derive(Debug)]
pub struct ResolvedAttachment {
    pub path: Vec<u8>,
    pub name: String,
    pub size: u64,
    pub md5: Option<String>,
}

/// What is wrong with an attachment identifier, or why its file cannot be had.
#[derive(Clone, Copy, Debug, PartialEq, Eq, Structural)]
pub enum AttachmentError {
    IdTooLong,
    IdFormat,
    IdContent,
    InvalidName,
    InvalidMd5,
    NoRoots,
    NotDownloaded,
}

/// The words of an error.
pub open spec fn error_text(error: AttachmentError) -> Seq<char> {
    match error {
        AttachmentError::IdTooLong => "附件标识过长"@,
        AttachmentError::IdFormat => "附件标识格式错误"@,
        AttachmentError::IdContent => "附件标识内容错误"@,
        AttachmentError::InvalidName => "附件文件名无效"@,
        AttachmentError::InvalidMd5 => "附件 MD5 无效"@,
        AttachmentError::NoRoots => "微信附件目录不存在"@,
        AttachmentError::NotDownloaded => "附件尚未下载到微信本地目录"@,
    }
}

impl AttachmentError {
    /// The words of the error.
    pub fn message(&self) -> (text: &'static str)
        ensures
            text@ == error_text(*self),
    {
        match self {
            AttachmentError::IdTooLong => "附件标识过长",
            AttachmentError::IdFormat => "附件标识格式错误",
            AttachmentError::IdContent => "附件标识内容错误",
            AttachmentError::InvalidName => "附件文件名无效",
            AttachmentError::InvalidMd5 => "附件 MD5 无效",
            AttachmentError::NoRoots => "微信附件目录不存在",
            AttachmentError::NotDownloaded => "附件尚未下载到微信本地目录",
        }
    }
}

// ---------------------------------------------------------------------------
// Names and digests
// ---------------------------------------------------------------------------

/// A name that is one component of a path: it has no separator, is neither the directory
/// itself nor the one above, holds no control character and takes at most 255 bytes.
pub open spec fn valid_name(name: Seq<char>) -> bool {
    &&& name.len() > 0
    &&& crate::text::byte_len(name) <= 255
    &&& name != "."@
    &&& name != ".."@
    &&& !name.contains('/')
    &&& !name.contains('\\')
    &&& forall|k: int| 0 <= k < name.len() ==> !crate::text::control_char(#[trigger] name[k])
}

/// Whether an attachment may have that name.
pub fn valid_attachment_name(name: &str) -> (valid: bool)
    ensures
        valid == valid_name(name@),
{
    !name.is_empty() && text_len(name) <= 255 && !text_eq(name, ".") && !text_eq(name, "..")
        && !contains_char(name, '/') && !contains_char(name, '\\') && !has_control(name)
}

pub open spec fn hex_char(c: char) -> bool {
    '0' <= c <= '9' || 'a' <= c <= 'f' || 'A' <= c <= 'F'
}

/// A digest in small letters, without the white space around it; `None` where it is not
/// thirty-two hexadecimal digits.
pub open spec fn normalized_md5(value: Option<Seq<char>>) -> Option<Seq<char>> {
    match value {
        Some(text) => {
            let inner = crate::text::trimmed(text);
            if inner.len() == 32 && forall|k: int| 0 <= k < 32 ==> hex_char(#[trigger] inner[k]) {
                Some(crate::text::ascii_lowered(inner))
            } else {
                None
            }
        },
        None => None,
    }
}

fn is_hex(chars: &Vec<char>) -> (all: bool)
    ensures
        all == (forall|k: int| 0 <= k < chars@.len() ==> hex_char(#[trigger] chars@[k])),
{
    let mut i: usize = 0;
    while i < chars.len()
        invariant
            i <= chars@.len(),
            forall|k: int| 0 <= k < i ==> hex_char(#[trigger] chars@[k]),
        decreases chars@.len() - i,
    {
        let c = chars[i];
        if !(('0' <= c && c <= '9') || ('a' <= c && c <= 'f') || ('A' <= c && c <= 'F')) {
            return false;
        }
        i = i + 1;
    }
    true
}

/// A digest in small letters, without the white space around it.
pub fn normalize_md5(value: Option<&str>) -> (digest: Option<String>)
    ensures
        crate::text::text_of(digest) == normalized_md5(
            match value {
                Some(text) => Some(text@),
                None => None,
            },
        ),
{
    match value {
        Some(text) => {
            let inner = trim(text);
            let chars = to_chars(inner);
            if chars.len() == 32 && is_hex(&chars) {
                Some(to_ascii_lowercase(inner))
            } else {
                None
            }
        },
        None => None,
    }
}

// ---------------------------------------------------------------------------
// Identifiers
// ---------------------------------------------------------------------------

/// What the identifier of a file message holds: only a file with a valid name has one.
pub open spec fn locator_of(content: crate::content::ContentView) -> Option<LocatorView> {
    match content {
        crate::content::ContentView::File { title, file_size, file_ext, md5 } => match title {
            Some(text) => if valid_name(crate::text::trimmed(text)) {
                Some(
                    LocatorView {
                        name: crate::text::trimmed(text),
                        size: file_size,
                        md5: normalized_md5(md5),
                    },
                )
            } else {
                None
            },
            None => None,
        },
        _ => None,
    }
}

fn text_ref(text: &Option<String>) -> (slice: Option<&str>)
    ensures
        match slice {
            Some(s) => crate::text::text_of(*text) == Some(s@),
            None => crate::text::text_of(*text) is None,
        },
{
    match text {
        Some(t) => Some(t.as_str()),
        None => None,
    }
}

/// What the identifier of a file message holds.
pub fn attachment_locator(parsed: &MsgContent) -> (locator: Option<AttachmentLocator>)
    ensures
        match locator {
            Some(l) => locator_of(parsed@) == Some(l@),
            None => locator_of(parsed@) is None,
        },
{
    match parsed {
        MsgContent::File { title, file_size, file_ext: _, md5 } => match title {
            Some(text) => {
                let name = trim(text.as_str());
                if !valid_attachment_name(name) {
                    return None;
                }
                Some(
                    AttachmentLocator {
                        name: name.to_owned(),
                        size: *file_size,
                        md5: normalize_md5(text_ref(md5)),
                    },
                )
            },
            None => None,
        },
        _ => None,
    }
}

/// The extension that a file message names.
pub open spec fn extension_of(content: crate::content::ContentView) -> Option<Seq<char>> {
    match content {
        crate::content::ContentView::File { title, file_size, file_ext, md5 } => file_ext,
        _ => None,
    }
}

/// The bytes that an identifier stands for.
pub open spec fn decoded_id(id: Seq<char>) -> Result<Seq<u8>, AttachmentError> {
    if crate::text::byte_len(id) > 2048 {
        Err(AttachmentError::IdTooLong)
    } else {
        match crate::outside::base64url_decoded(id) {
            Some(bytes) => Ok(bytes),
            None => Err(AttachmentError::IdFormat),
        }
    }
}

/// The metadata of a file message: its locator, with an identifier made of `encoded`,
/// which is how the locator is written down.
pub open spec fn attachment_of(
    content: crate::content::ContentView,
    encoded: Seq<u8>,
    available: bool,
) -> Option<AttachmentView> {
    let id = crate::outside::base64url(encoded);
    match locator_of(content) {
        Some(locator) => Some(
            AttachmentView {
                id,
                name: locator.name,
                size: locator.size,
                extension: extension_of(content),
                md5: locator.md5,
                available,
                download_url: "/attachments/"@ + id,
            },
        ),
        None => None,
    }
}

/// The metadata of a file message, `encoded` being how its locator is written down. The
/// identifier is made of characters that stand in a URL unchanged, and what it decodes to
/// is what went into it.
pub fn attachment_info(parsed: &MsgContent, encoded: &[u8], available: bool) -> (info: Option<
    AttachmentInfo,
>)
    requires
        encoded@.len() <= usize::MAX / 4,
    ensures
        match info {
            Some(i) => {
                &&& attachment_of(parsed@, encoded@, available) == Some(i@)
                &&& forall|k: int|
                    0 <= k < i.id@.len() ==> crate::outside::base64url_char(#[trigger] i.id@[k])
                &&& encoded@.len() <= 1536 ==> decoded_id(i.id@) == Ok::<Seq<u8>, AttachmentError>(
                    encoded@,
                )
            },
            None => attachment_of(parsed@, encoded@, available) is None,
        },
{
    match attachment_locator(parsed) {
        Some(locator) => {
            let id = base64url_encode(encoded);
            proof {
                assert forall|k: int| 0 <= k < id@.len() implies (#[trigger] id@[k]) <= '\u{7f}' by {
                    assert(crate::outside::base64url_char(id@[k]));
                }
                crate::text::lemma_ascii_byte_len(id@);
            }
            let extension = match parsed {
                MsgContent::File { title: _, file_size: _, file_ext, md5: _ } => clone_text(
                    file_ext,
                ),
                _ => None,
            };
            let download_url = "/attachments/".to_owned().concat(id.as_str());
            Some(
                AttachmentInfo {
                    id,
                    name: locator.name,
                    size: locator.size,
                    extension,
                    md5: locator.md5,
                    available,
                    download_url,
                },
            )
        },
        None => None,
    }
}

/// The bytes that an identifier stands for.
pub fn decode_attachment_id(id: &str) -> (bytes: Result<Vec<u8>, AttachmentError>)
    ensures
        match bytes {
            Ok(b) => decoded_id(id@) == Ok::<Seq<u8>, AttachmentError>(b@),
            Err(e) => decoded_id(id@) == Err::<Seq<u8>, AttachmentError>(e),
        },
{
    if text_len(id) > 2048 {
        return Err(AttachmentError::IdTooLong);
    }
    match base64url_decode(id) {
        Some(bytes) => Ok(bytes),
        None => Err(AttachmentError::IdFormat),
    }
}

/// What is wrong with a locator that came from a client.
pub open spec fn locator_fault(locator: LocatorView) -> Option<AttachmentError> {
    if !valid_name(locator.name) {
        Some(AttachmentError::InvalidName)
    } else if locator.md5 is Some && normalized_md5(locator.md5) is None {
        Some(AttachmentError::InvalidMd5)
    } else {
        None
    }
}

/// Checks a locator that came from a client.
pub fn check_locator(locator: &AttachmentLocator) -> (checked: Result<(), AttachmentError>)
    ensures
        match checked {
            Ok(_) => locator_fault(locator@) is None,
            Err(e) => locator_fault(locator@) == Some(e),
        },
{
    if !valid_attachment_name(locator.name.as_str()) {
        return Err(AttachmentError::InvalidName);
    }
    if locator.md5.is_some() && normalize_md5(text_ref(&locator.md5)).is_none() {
        return Err(AttachmentError::InvalidMd5);
    }
    Ok(())
}

// ---------------------------------------------------------------------------
// Directories
// ---------------------------------------------------------------------------

/// `relative` under `root`, with one separator between them.
pub open spec fn joined(root: Seq<u8>, relative: Seq<u8>) -> Seq<u8> {
    if root.len() == 0 || root.last() == 0x2f {
        root + relative
    } else {
        root.push(0x2f) + relative
    }
}

/// `relative` under `root`; `relative` does not begin with a separator.
pub fn join(root: &[u8], relative: &str) -> (path: Vec<u8>)
    ensures
        path@ == joined(root@, relative.spec_bytes()),
{
    let mut path: Vec<u8> = Vec::new();
    path.extend_from_slice(root);
    proof {
        assert(path@ =~= root@);
    }
    if root.len() > 0 && root[root.len() - 1] != 0x2f {
        path.push(0x2f);
    }
    let ghost stem = path@;
    path.extend_from_slice(relative.as_bytes());
    proof {
        assert(path@ =~= stem + relative.spec_bytes());
        assert(path@ =~= joined(root@, relative.spec_bytes()));
    }
    path
}

pub open spec fn paths_view(paths: Seq<Vec<u8>>) -> Seq<Seq<u8>> {
    paths.map_values(|p: Vec<u8>| p@)
}

/// Where the client keeps attachments, under the directory of the account.
pub open spec fn root_paths(account_root: Seq<u8>) -> Seq<Seq<u8>> {
    seq![
        joined(account_root, encode_utf8("msg/file"@)),
        joined(account_root, encode_utf8("msg/attach"@)),
        joined(account_root, encode_utf8("msg/video"@)),
        joined(account_root, encode_utf8("temp"@)),
    ]
}

/// The directories in which attachments are looked for, under the directory of the
/// account; those of them that exist count. There are none where the database directory
/// has no parent.
pub fn attachment_roots(account_root: Option<&[u8]>) -> (roots: Vec<Vec<u8>>)
    ensures
        paths_view(roots@) == match account_root {
            Some(root) => root_paths(root@),
            None => seq![],
        },
{
    let mut roots: Vec<Vec<u8>> = Vec::new();
    if let Some(root) = account_root {
        roots.push(join(root, "msg/file"));
        roots.push(join(root, "msg/attach"));
        roots.push(join(root, "msg/video"));
        roots.push(join(root, "temp"));
        proof {
            assert(paths_view(roots@) =~= root_paths(root@));
        }
    } else {
        proof {
            assert(paths_view(roots@) =~= Seq::<Seq<u8>>::empty());
        }
    }
    roots
}

/// What kind of entry a directory holds.
#[derive(Clone, Copy, Debug, PartialEq, Eq, Structural)]
pub enum EntryKind {
    /// The kind could not be read.
    Unreadable,
    Symlink,
    Directory,
    File,
    Other,
}

/// What the walk does with an entry.
#[derive(Clone, Copy, Debug, PartialEq, Eq, Structural)]
pub enum Visit {
    Skip,
    /// Walk the directory, at that depth.
    Descend(usize),
    Take,
}

/// The deepest level below a root at which files are taken.
pub const MAX_DEPTH: usize = 8;

/// What the walk does with an entry of a directory at `depth`.
pub open spec fn visit_of(depth: usize, kind: EntryKind) -> Visit {
    match kind {
        EntryKind::File => Visit::Take,
        EntryKind::Directory => if depth < MAX_DEPTH {
            Visit::Descend((depth + 1) as usize)
        } else {
            Visit::Skip
        },
        _ => Visit::Skip,
    }
}

/// What the walk does with an entry of a directory at `depth`: regular files are taken,
/// directories are walked as far down as the limit, symbolic links are never followed.
pub fn visit_entry(depth: usize, kind: EntryKind) -> (visit: Visit)
    requires
        depth <= MAX_DEPTH,
    ensures
        visit == visit_of(depth, kind),
{
    match kind {
        EntryKind::File => Visit::Take,
        EntryKind::Directory => if depth < MAX_DEPTH {
            Visit::Descend(depth + 1)
        } else {
            Visit::Skip
        },
        _ => Visit::Skip,
    }
}

// ---------------------------------------------------------------------------
// The search
// ---------------------------------------------------------------------------

/// What the file system says of a file. `modified` is in nanoseconds since the beginning
/// of 1970, and zero where it is not known.
#[derive(Clone, Copy, Debug, PartialEq, Eq, Structural)]
pub struct FileFacts {
    pub is_file: bool,
    pub size: u64,
    pub modified: i128,
}

/// The MD5 digest of a file, made while the file is read piece by piece.
pub struct FileDigest {
    context: md5::Context,
}

impl View for FileDigest {
    type V = Seq<u8>;

    /// What was read of the file.
    closed spec fn view(&self) -> Seq<u8> {
        crate::outside::consumed(self.context)
    }
}

impl FileDigest {
    pub fn new() -> (digest: FileDigest)
        ensures
            digest@ == Seq::<u8>::empty(),
    {
        FileDigest { context: new_context() }
    }

    /// Takes in the next piece of the file.
    pub fn add_piece(&mut self, piece: &[u8])
        ensures
            final(self)@ == old(self)@ + piece@,
    {
        consume(&mut self.context, piece);
    }

    /// The digest of all that was read, in hexadecimal.
    pub fn file_md5(self) -> (digest: String)
        ensures
            digest@ == crate::outside::md5_hex(self@),
    {
        context_digest(self.context)
    }
}

/// A file that may be the attachment: its name, what the file system says of it, the MD5
/// digest of its content as [`FileDigest`] makes it, where it was wanted and could be read,
/// and its path without symbolic links.
#[derive(Debug)]
pub struct Candidate {
    pub file_name: Option<Vec<u8>>,
    pub facts: Option<FileFacts>,
    pub digest: Option<String>,
    pub canonical: Option<Vec<u8>>,
}

/// Whether a file has the name that is looked for.
pub open spec fn same_name(locator: LocatorView, file_name: Option<Vec<u8>>) -> bool {
    file_name is Some && file_name->0@ == encode_utf8(locator.name)
}

/// Whether name and size fit. A digest stands in for the name.
pub open spec fn fits(
    locator: LocatorView,
    file_name: Option<Vec<u8>>,
    facts: Option<FileFacts>,
) -> bool {
    &&& same_name(locator, file_name) || normalized_md5(locator.md5) is Some
    &&& facts is Some
    &&& facts->0.is_file
    &&& locator.size is Some ==> locator.size->0 == facts->0.size
}

/// Whether a path lies in a directory, or is that directory.
pub open spec fn lies_in(path: Seq<u8>, root: Seq<u8>) -> bool {
    ||| path == root
    ||| {
        let stem = joined(root, seq![]);
        stem.len() <= path.len() && path.take(stem.len() as int) == stem
    }
}

/// Whether a path lies in one of the directories.
pub open spec fn allowed(path: Seq<u8>, roots: Seq<Option<Vec<u8>>>) -> bool {
    exists|i: int| 0 <= i < roots.len() && (#[trigger] roots[i]) is Some && lies_in(path, roots[i]->0@)
}

/// Whether a file is the attachment: name and size fit, so does the digest where there is
/// one, and the file still lies in one of the directories.
pub open spec fn matches(
    locator: LocatorView,
    candidate: Candidate,
    roots: Seq<Option<Vec<u8>>>,
) -> bool {
    let wanted = normalized_md5(locator.md5);
    &&& fits(locator, candidate.file_name, candidate.facts)
    &&& wanted is Some ==> crate::text::text_of(candidate.digest) == wanted
    &&& candidate.canonical is Some
    &&& allowed(candidate.canonical->0@, roots)
}

/// Whether `a` goes before `b`: a file of the right name before one of another, and then
/// the newer one.
pub open spec fn goes_before(locator: LocatorView, a: Candidate, b: Candidate) -> bool {
    let a_named = same_name(locator, a.file_name);
    let b_named = same_name(locator, b.file_name);
    ||| a_named && !b_named
    ||| a_named == b_named && a.facts->0.modified > b.facts->0.modified
}

/// The place of the file that is chosen: of those that match, the first that no other
/// goes before.
pub open spec fn chosen(
    locator: LocatorView,
    candidates: Seq<Candidate>,
    roots: Seq<Option<Vec<u8>>>,
) -> Option<int>
    decreases candidates.len(),
{
    if candidates.len() == 0 {
        None
    } else {
        let last = candidates.last();
        let before = chosen(locator, candidates.drop_last(), roots);
        if !matches(locator, last, roots) {
            before
        } else {
            match before {
                Some(i) => if goes_before(locator, last, candidates[i]) {
                    Some(candidates.len() - 1)
                } else {
                    before
                },
                None => Some(candidates.len() - 1),
            }
        }
    }
}

fn is_named(locator: &AttachmentLocator, file_name: &Option<Vec<u8>>) -> (named: bool)
    ensures
        named == same_name(locator@, *file_name),
{
    match file_name {
        Some(name) => bytes_eq(name.as_slice(), locator.name.as_str().as_bytes()),
        None => false,
    }
}

/// Whether a file is worth a closer look: its digest is read only then.
pub fn worth_reading(
    locator: &AttachmentLocator,
    file_name: &Option<Vec<u8>>,
    facts: &Option<FileFacts>,
) -> (worth: bool)
    ensures
        worth == fits(locator@, *file_name, *facts),
{
    if !is_named(locator, file_name) && normalize_md5(text_ref(&locator.md5)).is_none() {
        return false;
    }
    match facts {
        Some(f) => f.is_file && match locator.size {
            Some(size) => size == f.size,
            None => true,
        },
        None => false,
    }
}

fn is_inside(path: &[u8], root: &[u8]) -> (inside: bool)
    ensures
        inside == lies_in(path@, root@),
{
    if bytes_eq(path, root) {
        return true;
    }
    let stem = join(root, "");
    proof {
        reveal_strlit("");
        assert(""@ =~= Seq::<char>::empty());
        assert("".spec_bytes() =~= Seq::<u8>::empty());
    }
    if stem.len() > path.len() {
        return false;
    }
    let head = vstd::slice::slice_subrange(path, 0, stem.len());
    proof {
        assert(head@ =~= path@.take(stem@.len() as int));
    }
    bytes_eq(head, stem.as_slice())
}

fn is_allowed(path: &[u8], roots: &Vec<Option<Vec<u8>>>) -> (inside: bool)
    ensures
        inside == allowed(path@, roots@),
{
    let mut i: usize = 0;
    while i < roots.len()
        invariant
            i <= roots@.len(),
            forall|k: int|
                0 <= k < i ==> !((#[trigger] roots@[k]) is Some && lies_in(path@, roots@[k]->0@)),
        decreases roots@.len() - i,
    {
        if let Some(root) = &roots[i] {
            if is_inside(path, root.as_slice()) {
                proof {
                    assert(roots@[i as int] is Some);
                }
                return true;
            }
        }
        i = i + 1;
    }
    false
}

fn is_match(
    locator: &AttachmentLocator,
    candidate: &Candidate,
    roots: &Vec<Option<Vec<u8>>>,
) -> (found: bool)
    ensures
        found == matches(locator@, *candidate, roots@),
{
    if !worth_reading(locator, &candidate.file_name, &candidate.facts) {
        return false;
    }
    if let Some(wanted) = normalize_md5(text_ref(&locator.md5)) {
        match &candidate.digest {
            Some(digest) => {
                if !text_eq(digest.as_str(), wanted.as_str()) {
                    return false;
                }
            },
            None => {
                return false;
            },
        }
    }
    match &candidate.canonical {
        Some(path) => is_allowed(path.as_slice(), roots),
        None => false,
    }
}

proof fn lemma_chosen_matches(
    locator: LocatorView,
    candidates: Seq<Candidate>,
    roots: Seq<Option<Vec<u8>>>,
)
    ensures
        match chosen(locator, candidates, roots) {
            Some(i) => {
                &&& 0 <= i < candidates.len()
                &&& matches(locator, candidates[i], roots)
            },
            None => forall|k: int|
                0 <= k < candidates.len() ==> !matches(locator, #[trigger] candidates[k], roots),
        },
    decreases candidates.len(),
{
    if candidates.len() > 0 {
        lemma_chosen_matches(locator, candidates.drop_last(), roots);
        if chosen(locator, candidates, roots) is None {
            assert forall|k: int| 0 <= k < candidates.len() implies !matches(
                locator,
                #[trigger] candidates[k],
                roots,
            ) by {
                if k < candidates.len() - 1 {
                    assert(candidates.drop_last()[k] == candidates[k]);
                }
            }
        }
    }
}

/// No file that matches goes before the chosen one, and none of its rank stands earlier.
pub proof fn chosen_is_first(
    locator: LocatorView,
    candidates: Seq<Candidate>,
    roots: Seq<Option<Vec<u8>>>,
    k: int,
)
    requires
        chosen(locator, candidates, roots) is Some,
        0 <= k < candidates.len(),
        matches(locator, candidates[k], roots),
    ensures
        ({
            let i = chosen(locator, candidates, roots)->0;
            &&& !goes_before(locator, candidates[k], candidates[i])
            &&& k < i ==> goes_before(locator, candidates[i], candidates[k])
        }),
    decreases candidates.len(),
{
    let shorter = candidates.drop_last();
    lemma_chosen_matches(locator, shorter, roots);
    lemma_chosen_matches(locator, candidates, roots);
    if k < shorter.len() {
        assert(shorter[k] == candidates[k]);
        if chosen(locator, shorter, roots) is Some {
            chosen_is_first(locator, shorter, roots, k);
        }
    }
}

/// A file that is handed out lies in one of the attachment directories, has the size and
/// the digest that the locator asks for, and has its name unless a digest vouches for it.
pub proof fn resolved_files_are_confined(
    locator: LocatorView,
    candidates: Seq<Candidate>,
    roots: Seq<Option<Vec<u8>>>,
)
    requires
        chosen(locator, candidates, roots) is Some,
    ensures
        ({
            let found = candidates[chosen(locator, candidates, roots)->0];
            &&& allowed(found.canonical->0@, roots)
            &&& found.facts->0.is_file
            &&& locator.size is Some ==> found.facts->0.size == locator.size->0
            &&& same_name(locator, found.file_name) || (normalized_md5(locator.md5) is Some
                && crate::text::text_of(found.digest) == normalized_md5(locator.md5))
        }),
{
    lemma_chosen_matches(locator, candidates, roots);
}

/// The error of a search, where it finds nothing.
pub open spec fn search_fault(
    locator: LocatorView,
    candidates: Seq<Candidate>,
    roots: Seq<Option<Vec<u8>>>,
) -> Option<AttachmentError> {
    if !valid_name(locator.name) {
        Some(AttachmentError::InvalidName)
    } else if roots.len() == 0 {
        Some(AttachmentError::NoRoots)
    } else if chosen(locator, candidates, roots) is None {
        Some(AttachmentError::NotDownloaded)
    } else {
        None
    }
}

/// What a search comes to.
pub open spec fn resolves_to(
    locator: LocatorView,
    candidates: Seq<Candidate>,
    roots: Seq<Option<Vec<u8>>>,
    resolved: Result<ResolvedAttachment, AttachmentError>,
) -> bool {
    match resolved {
        Ok(file) => {
            let found = candidates[chosen(locator, candidates, roots)->0];
            &&& search_fault(locator, candidates, roots) is None
            &&& file.path@ == found.canonical->0@
            &&& file.name@ == locator.name
            &&& file.size == found.facts->0.size
            &&& crate::text::text_of(file.md5) == normalized_md5(locator.md5)
        },
        Err(e) => search_fault(locator, candidates, roots) == Some(e),
    }
}

/// Why an identifier gives no file. `locator` is what its bytes say, where they say anything.
pub open spec fn request_fault(
    id: Seq<char>,
    locator: Option<LocatorView>,
    candidates: Seq<Candidate>,
    roots: Seq<Option<Vec<u8>>>,
) -> Option<AttachmentError> {
    match decoded_id(id) {
        Err(e) => Some(e),
        Ok(_) => match locator {
            None => Some(AttachmentError::IdContent),
            Some(wanted) => match locator_fault(wanted) {
                Some(e) => Some(e),
                None => search_fault(wanted, candidates, roots),
            },
        },
    }
}

/// What a request for the file of an identifier comes to.
pub open spec fn answers_request(
    id: Seq<char>,
    locator: Option<LocatorView>,
    candidates: Seq<Candidate>,
    roots: Seq<Option<Vec<u8>>>,
    resolved: Result<ResolvedAttachment, AttachmentError>,
) -> bool {
    match request_fault(id, locator, candidates, roots) {
        Some(e) => resolved == Err::<ResolvedAttachment, AttachmentError>(e),
        None => resolved is Ok && locator is Some && resolves_to(
            locator->0,
            candidates,
            roots,
            resolved,
        ),
    }
}

/// The file that a locator means, among the regular files under the directories. `roots`
/// holds the directories that exist, each with its path without symbolic links where that
/// could be had.
pub fn resolve_from_candidates(
    locator: &AttachmentLocator,
    candidates: &Vec<Candidate>,
    roots: &Vec<Option<Vec<u8>>>,
) -> (resolved: Result<ResolvedAttachment, AttachmentError>)
    ensures
        resolves_to(locator@, candidates@, roots@, resolved),
{
    if !valid_attachment_name(locator.name.as_str()) {
        return Err(AttachmentError::InvalidName);
    }
    if roots.len() == 0 {
        return Err(AttachmentError::NoRoots);
    }
    let mut best: Option<usize> = None;
    let mut i: usize = 0;
    while i < candidates.len()
        invariant
            i <= candidates@.len(),
            match best {
                Some(b) => chosen(locator@, candidates@.take(i as int), roots@) == Some(b as int)
                    && b < i,
                None => chosen(locator@, candidates@.take(i as int), roots@) is None,
            },
        decreases candidates@.len() - i,
    {
        proof {
            lemma_chosen_matches(locator@, candidates@.take(i as int), roots@);
            assert(candidates@.take(i + 1).drop_last() =~= candidates@.take(i as int));
            assert(candidates@.take(i + 1).last() == candidates@[i as int]);
        }
        if is_match(locator, &candidates[i], roots) {
            let better: bool = match best {
                Some(b) => {
                    proof {
                        assert(candidates@.take(i as int)[b as int] == candidates@[b as int]);
                        assert(candidates@.take(i + 1)[b as int] == candidates@[b as int]);
                    }
                    let named = is_named(locator, &candidates[i].file_name);
                    let best_named = is_named(locator, &candidates[b].file_name);
                    let newer: bool = match (&candidates[i].facts, &candidates[b].facts) {
                        (Some(x), Some(y)) => x.modified > y.modified,
                        _ => false,
                    };
                    (named && !best_named) || (named == best_named && newer)
                },
                None => true,
            };
            if better {
                best = Some(i);
            }
        }
        i = i + 1;
    }
    proof {
        assert(candidates@.take(candidates@.len() as int) =~= candidates@);
        lemma_chosen_matches(locator@, candidates@, roots@);
    }
    match best {
        Some(b) => {
            let found = &candidates[b];
            match (&found.canonical, &found.facts) {
                (Some(canonical), Some(facts)) => {
                    let mut path: Vec<u8> = Vec::new();
                    path.extend_from_slice(canonical.as_slice());
                    proof {
                        assert(path@ =~= canonical@);
                    }
                    Ok(
                        ResolvedAttachment {
                            path,
                            name: locator.name.clone(),
                            size: facts.size,
                            md5: normalize_md5(text_ref(&locator.md5)),
                        },
                    )
                },
                _ => Err(AttachmentError::NotDownloaded),
            }
        },
        None => Err(AttachmentError::NotDownloaded),
    }
}

/// Whether the file of a message can be had: it is a file with a valid name, and one of the
/// candidates is it.
pub open spec fn available_among(
    content: crate::content::ContentView,
    candidates: Seq<Candidate>,
    roots: Seq<Option<Vec<u8>>>,
) -> bool {
    match locator_of(content) {
        Some(locator) => search_fault(locator, candidates, roots) is None,
        None => false,
    }
}

/// Whether the file of a message can be had.
pub fn is_available(
    parsed: &MsgContent,
    candidates: &Vec<Candidate>,
    roots: &Vec<Option<Vec<u8>>>,
) -> (available: bool)
    ensures
        available == available_among(parsed@, candidates@, roots@),
{
    match attachment_locator(parsed) {
        Some(locator) => resolve_from_candidates(&locator, candidates, roots).is_ok(),
        None => false,
    }
}

proof fn lemma_normalized_stays(value: Option<Seq<char>>)
    ensures
        normalized_md5(normalized_md5(value)) == normalized_md5(value),
{
    if let Some(digest) = normalized_md5(value) {
        let inner = crate::text::trimmed(value->0);
        assert forall|k: int| 0 <= k < 32 implies hex_char(#[trigger] digest[k])
            && !crate::text::white_space(digest[k]) && crate::text::ascii_lower(digest[k])
            == digest[k] by {
            assert(hex_char(inner[k]));
            assert(digest[k] == crate::text::ascii_lower(inner[k]));
        }
        assert(crate::text::trim_front(digest) == digest);
        assert(digest.last() == digest[31]);
        assert(crate::text::trim_back(digest) == digest);
        assert(crate::text::ascii_lowered(digest) =~= digest);
    }
}

/// The identifier of a file message resolves if and only if the file is available, and then
/// to a file with the attachment's name and digest. `encoded` is how the message's locator
/// is written down, and the identifier gives it back.
pub proof fn identifiers_resolve_iff_available(
    content: crate::content::ContentView,
    encoded: Seq<u8>,
    candidates: Seq<Candidate>,
    roots: Seq<Option<Vec<u8>>>,
)
    requires
        locator_of(content) is Some,
        decoded_id(crate::outside::base64url(encoded)) == Ok::<Seq<u8>, AttachmentError>(encoded),
    ensures
        ({
            let available = available_among(content, candidates, roots);
            let attachment = attachment_of(content, encoded, available)->0;
            let locator = locator_of(content)->0;
            &&& attachment_of(content, encoded, available) is Some
            &&& attachment.available <==> request_fault(
                attachment.id,
                Some(locator),
                candidates,
                roots,
            ) is None
            &&& attachment.name == locator.name
            &&& attachment.md5 == normalized_md5(locator.md5)
            &&& attachment.download_url == "/attachments/"@ + attachment.id
        }),
{
    if let crate::content::ContentView::File { title, file_size, file_ext, md5 } = content {
        lemma_normalized_stays(md5);
    }
}

// ---------------------------------------------------------------------------
// Laws of attachments
// ---------------------------------------------------------------------------

/// What a hexadecimal digit stands for.
pub open spec fn hex_value(c: char) -> int {
    if '0' <= c <= '9' {
        c as int - '0' as int
    } else if 'a' <= c <= 'f' {
        c as int - 'a' as int + 10
    } else {
        c as int - 'A' as int + 10
    }
}

/// Whether a text is thirty-two hexadecimal digits.
pub open spec fn is_digest(text: Seq<char>) -> bool {
    text.len() == 32 && forall|k: int| 0 <= k < 32 ==> hex_char(#[trigger] text[k])
}

/// Whether `small` says in small letters what the digest `text` says.
pub open spec fn says_in_small_letters(small: Option<Seq<char>>, text: Seq<char>) -> bool {
    &&& small is Some
    &&& small->0.len() == 32
    &&& forall|k: int|
        0 <= k < 32 ==> crate::outside::small_hex(#[trigger] (small->0)[k]) && hex_value(
            (small->0)[k],
        ) == hex_value(text[k])
}

proof fn lemma_digest_kept(text: Seq<char>)
    requires
        is_digest(text),
    ensures
        says_in_small_letters(normalized_md5(Some(text)), text),
{
    assert(hex_char(text[0]));
    assert(hex_char(text[31]));
    assert(text.last() == text[31]);
    assert(crate::text::trim_front(text) == text);
    assert(crate::text::trim_back(text) == text);
    let small = crate::text::ascii_lowered(text);
    assert forall|k: int| 0 <= k < 32 implies crate::outside::small_hex(#[trigger] small[k])
        && hex_value(small[k]) == hex_value(text[k]) by {
        assert(hex_char(text[k]));
        assert(small[k] == crate::text::ascii_lower(text[k]));
    }
}

/// A file message with a valid name has a locator and an attachment that keep what the
/// message says: its name, its size, and its digest in small letters where it is thirty-two
/// hexadecimal digits; what is no digest is left out. The attachment keeps the extension
/// too, and says whether the file is there.
pub proof fn file_messages_keep_their_digest(
    name: Seq<char>,
    file_size: Option<u64>,
    file_ext: Option<Seq<char>>,
    md5: Seq<char>,
    encoded: Seq<u8>,
    available: bool,
)
    requires
        valid_name(name),
        !crate::text::white_space(name[0]),
        !crate::text::white_space(name.last()),
    ensures
        ({
            let with = crate::content::ContentView::File {
                title: Some(name),
                file_size,
                file_ext,
                md5: Some(md5),
            };
            let without = crate::content::ContentView::File {
                title: Some(name),
                file_size,
                file_ext,
                md5: None,
            };
            &&& locator_of(with) is Some
            &&& locator_of(without) is Some
            &&& locator_of(with)->0.name == name
            &&& locator_of(without)->0.name == name
            &&& locator_of(with)->0.size == file_size
            &&& locator_of(without)->0.size == file_size
            &&& is_digest(md5) ==> says_in_small_letters(locator_of(with)->0.md5, md5)
            &&& crate::text::trimmed(md5).len() != 32 ==> locator_of(with)->0.md5 is None
            &&& locator_of(without)->0.md5 is None
            &&& attachment_of(with, encoded, available) is Some
            &&& attachment_of(with, encoded, available)->0.name == name
            &&& attachment_of(with, encoded, available)->0.size == file_size
            &&& attachment_of(with, encoded, available)->0.extension == file_ext
            &&& attachment_of(with, encoded, available)->0.available == available
            &&& attachment_of(with, encoded, available)->0.md5 == locator_of(with)->0.md5
            &&& is_digest(md5) ==> says_in_small_letters(
                attachment_of(with, encoded, available)->0.md5,
                md5,
            )
            &&& attachment_of(without, encoded, available)->0.md5 is None
            &&& attachment_of(with, encoded, available)->0.id == crate::outside::base64url(encoded)
            &&& attachment_of(with, encoded, available)->0.download_url == "/attachments/"@
                + crate::outside::base64url(encoded)
        }),
{
    assert(crate::text::trim_front(name) == name);
    assert(crate::text::trim_back(name) == name);
    if is_digest(md5) {
        lemma_digest_kept(md5);
    }
}

/// Only a file message has a locator, and its name is what the title says without the white
/// space around it, and one component of a path: it names no other directory.
pub proof fn locators_name_plain_files(content: crate::content::ContentView)
    ensures
        locator_of(content) is Some ==> {
            let name = locator_of(content)->0.name;
            &&& content is File
            &&& content->File_title is Some
            &&& name == crate::text::trimmed(content->File_title->0)
            &&& name.len() > 0
            &&& !name.contains('/')
            &&& !name.contains('\\')
            &&& name != seq!['.']
            &&& name != seq!['.', '.']
            &&& crate::text::byte_len(name) <= 255
            &&& forall|k: int|
                0 <= k < name.len() ==> (#[trigger] name[k]) > '\u{1f}' && name[k] != '\u{7f}'
        },
        content is File && content->File_title is Some ==> {
            let name = crate::text::trimmed(content->File_title->0);
            locator_of(content) is None ==> name.len() == 0 || name.contains('/') || name.contains(
                '\\',
            ) || name == seq!['.'] || name == seq!['.', '.'] || crate::text::byte_len(name) > 255
                || exists|k: int|
                0 <= k < name.len() && crate::text::control_char(#[trigger] name[k])
        },
{
    reveal_strlit(".");
    reveal_strlit("..");
    assert("."@ =~= seq!['.']);
    assert(".."@ =~= seq!['.', '.']);
}

/// Whether a candidate is a regular file of that name and size that lies in a directory for
/// attachments.
pub open spec fn is_the_file(
    candidate: Candidate,
    name: Seq<char>,
    size: Option<u64>,
    roots: Seq<Option<Vec<u8>>>,
) -> bool {
    &&& candidate.file_name is Some
    &&& candidate.file_name->0@ == encode_utf8(name)
    &&& candidate.facts is Some
    &&& candidate.facts->0.is_file
    &&& size is Some ==> candidate.facts->0.size == size->0
    &&& candidate.canonical is Some
    &&& allowed(candidate.canonical->0@, roots)
}

/// The file that is handed out is one of the candidates: a regular one that lies in a
/// directory for attachments, with the size that is asked for. Where a digest is asked for,
/// its digest is exactly that one; where none is, it has the name that is asked for. It is
/// given under the name that is asked for, and with its own size.
pub proof fn handed_out_files_are_the_ones_asked_for(
    locator: LocatorView,
    candidates: Seq<Candidate>,
    roots: Seq<Option<Vec<u8>>>,
    file: ResolvedAttachment,
)
    requires
        resolves_to(locator, candidates, roots, Ok(file)),
    ensures
        exists|i: int|
            0 <= i < candidates.len() && {
                let found = #[trigger] candidates[i];
                &&& found.canonical is Some
                &&& found.canonical->0@ == file.path@
                &&& allowed(file.path@, roots)
                &&& found.facts is Some
                &&& found.facts->0.is_file
                &&& found.facts->0.size == file.size
                &&& locator.size is Some ==> locator.size->0 == file.size
                &&& locator.md5 is Some && is_digest(locator.md5->0) ==> says_in_small_letters(
                    crate::text::text_of(found.digest),
                    locator.md5->0,
                ) && crate::text::text_of(file.md5) == crate::text::text_of(found.digest)
                &&& locator.md5 is None ==> found.file_name is Some && found.file_name->0@
                    == encode_utf8(locator.name) && file.md5 is None
            },
        file.name@ == locator.name,
{
    lemma_chosen_matches(locator, candidates, roots);
    let i = chosen(locator, candidates, roots)->0;
    assert(matches(locator, candidates[i], roots));
    if locator.md5 is Some && is_digest(locator.md5->0) {
        lemma_digest_kept(locator.md5->0);
    }
}

/// A search fails only for a name that is no file's, where there are no directories, or
/// where no candidate is the file: one that has the name and the size that are asked for,
/// and lies where it should, is found where no digest is asked for; and where one is asked
/// for, a file with that digest is found under whatever name.
pub proof fn files_that_are_there_are_found(
    locator: LocatorView,
    candidates: Seq<Candidate>,
    roots: Seq<Option<Vec<u8>>>,
    resolved: Result<ResolvedAttachment, AttachmentError>,
    k: int,
    name: Seq<char>,
)
    requires
        resolves_to(locator, candidates, roots, resolved),
        0 <= k < candidates.len(),
    ensures
        valid_name(locator.name) && locator.md5 is None && is_the_file(
            candidates[k],
            locator.name,
            locator.size,
            roots,
        ) ==> resolved is Ok,
        valid_name(locator.name) && locator.md5 is Some && is_digest(locator.md5->0)
            && is_the_file(candidates[k], name, locator.size, roots) && crate::text::text_of(
            candidates[k].digest,
        ) == Some(crate::text::ascii_lowered(locator.md5->0)) ==> resolved is Ok,
        resolved is Err ==> (resolved->Err_0 == AttachmentError::InvalidName <==> !valid_name(
            locator.name,
        )),
        resolved is Err ==> (resolved->Err_0 == AttachmentError::NoRoots <==> valid_name(
            locator.name,
        ) && roots.len() == 0),
{
    lemma_chosen_matches(locator, candidates, roots);
    if locator.md5 is Some && is_digest(locator.md5->0) {
        let text = locator.md5->0;
        lemma_digest_kept(text);
        assert(hex_char(text[0]));
        assert(hex_char(text[31]));
        assert(text.last() == text[31]);
        assert(crate::text::trim_front(text) == text);
        assert(crate::text::trim_back(text) == text);
    }
    if allowed(candidates[k].canonical->0@, roots) {
        assert(roots.len() > 0);
    }
}

/// Which of several files is handed out: one with the name that is asked for rather than
/// one with another, and of those the newest; the earliest candidate where that does not
/// decide.
pub proof fn the_named_and_newest_file_wins(
    locator: LocatorView,
    candidates: Seq<Candidate>,
    roots: Seq<Option<Vec<u8>>>,
    k: int,
)
    requires
        chosen(locator, candidates, roots) is Some,
        0 <= k < candidates.len(),
        matches(locator, candidates[k], roots),
    ensures
        ({
            let i = chosen(locator, candidates, roots)->0;
            let found = candidates[i];
            let other = candidates[k];
            let wanted = encode_utf8(locator.name);
            let found_named = found.file_name is Some && found.file_name->0@ == wanted;
            let other_named = other.file_name is Some && other.file_name->0@ == wanted;
            &&& other_named ==> found_named
            &&& found_named == other_named ==> found.facts->0.modified >= other.facts->0.modified
            &&& found_named == other_named && found.facts->0.modified == other.facts->0.modified
                ==> i <= k
        }),
{
    chosen_is_first(locator, candidates, roots, k);
}

/// A path lies in a directory where it is the directory, or goes on behind it with a
/// separator; a longer name of the same beginning is another directory.
pub proof fn paths_lie_in_their_directories(root: Seq<u8>, rest: Seq<u8>, other: u8)
    requires
        root.len() > 0,
        root.last() != 0x2f,
        other != 0x2f,
    ensures
        lies_in(root, root),
        lies_in(root + seq![0x2fu8] + rest, root),
        !lies_in(root + seq![other] + rest, root),
{
    let stem = root.push(0x2f);
    assert(joined(root, Seq::<u8>::empty()) =~= stem);
    let inside = root + seq![0x2fu8] + rest;
    assert(inside.take(stem.len() as int) =~= stem);
    let outside = root + seq![other] + rest;
    assert(outside.len() > root.len());
    assert(outside[root.len() as int] == other);
    if stem.len() <= outside.len() && outside.take(stem.len() as int) == stem {
        assert(stem[root.len() as int] == outside.take(stem.len() as int)[root.len() as int]);
    }
}

/// Symbolic links are never followed, nor is what cannot be read; files are taken at every
/// depth, and directories are walked down to the eighth.
pub proof fn links_are_never_followed(depth: usize, kind: EntryKind)
    requires
        depth <= 8,
    ensures
        kind == EntryKind::Symlink || kind == EntryKind::Unreadable || kind == EntryKind::Other
            ==> visit_of(depth, kind) == Visit::Skip,
        visit_of(depth, EntryKind::File) == Visit::Take,
        depth < 8 ==> visit_of(depth, EntryKind::Directory) == Visit::Descend((depth + 1) as usize),
        depth == 8 ==> visit_of(depth, EntryKind::Directory) == Visit::Skip,
{
}

/// What a client sends as an identifier is refused where it is longer than two kilobytes,
/// cannot be decoded, says nothing, or names something outside the directories; and where
/// its digest is none.
pub proof fn identifiers_are_checked(
    id: Seq<char>,
    locator: Option<LocatorView>,
    candidates: Seq<Candidate>,
    roots: Seq<Option<Vec<u8>>>,
)
    ensures
        ({
            let fault = request_fault(id, locator, candidates, roots);
            &&& encode_utf8(id).len() > 2048 <==> fault == Some(AttachmentError::IdTooLong)
            &&& encode_utf8(id).len() <= 2048 && crate::outside::base64url_decoded(id) is None
                <==> fault == Some(AttachmentError::IdFormat)
            &&& fault is None ==> locator is Some && !locator->0.name.contains('/')
                && !locator->0.name.contains('\\') && locator->0.name.len() > 0
            &&& fault is None ==> locator->0.md5 is None || crate::text::trimmed(
                locator->0.md5->0,
            ).len() == 32
            &&& fault is None ==> chosen(locator->0, candidates, roots) is Some
            &&& locator is None && encode_utf8(id).len() <= 2048
                && crate::outside::base64url_decoded(id) is Some ==> fault == Some(
                AttachmentError::IdContent,
            )
        }),
{
}

/// The directories for attachments lie under that of the account.
pub proof fn attachment_directories(root: Seq<u8>)
    requires
        root.len() > 0,
        root.last() != 0x2f,
    ensures
        root_paths(root).len() == 4,
        root_paths(root)[0] == root.push(0x2f) + encode_utf8("msg/file"@),
        root_paths(root)[1] == root.push(0x2f) + encode_utf8("msg/attach"@),
        root_paths(root)[2] == root.push(0x2f) + encode_utf8("msg/video"@),
        root_paths(root)[3] == root.push(0x2f) + encode_utf8("temp"@),
{
}

/// A request is answered with a file exactly where the identifier can be read, belongs to a
/// message with a file of a plain name, and one of the candidates is that file; the file
/// that is handed out is a candidate, under the name that was asked for.
pub proof fn requests_are_answered(
    id: Seq<char>,
    locator: Option<LocatorView>,
    candidates: Seq<Candidate>,
    roots: Seq<Option<Vec<u8>>>,
    resolved: Result<ResolvedAttachment, AttachmentError>,
)
    requires
        answers_request(id, locator, candidates, roots, resolved),
    ensures
        encode_utf8(id).len() > 2048 ==> resolved == Err::<ResolvedAttachment, AttachmentError>(
            AttachmentError::IdTooLong,
        ),
        crate::outside::base64url_decoded(id) is None ==> resolved is Err,
        locator is None ==> resolved is Err,
        resolved is Ok ==> locator is Some && resolved->Ok_0.name@ == locator->0.name && exists|
            k: int,
        |
            0 <= k < candidates.len() && (#[trigger] candidates[k]).canonical is Some
                && candidates[k].canonical->0@ == resolved->Ok_0.path@,
        resolved is Ok <==> request_fault(id, locator, candidates, roots) is None,
{
    if resolved is Ok {
        let k = chosen(locator->0, candidates, roots)->0;
        lemma_chosen_matches(locator->0, candidates, roots);
        assert(candidates[k].canonical->0@ == resolved->Ok_0.path@);
    }
}

} // verus!
