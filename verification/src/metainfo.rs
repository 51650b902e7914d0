//! Torrent files: what they say, and how it is read from their bytes.

use crate::bencode::{dict_get, dict_value, encoded, entry, list_value, parsed};
use crate::bencode::{Bencode, BencodeError, Encode, Value};
use crate::hashing::{sha1, sha1_digest};
use crate::path::{components, extension, file_name, parent, path_of, pushed, FilePath};
use crate::text::{copy_opt_text, joined, opt_text, text_of, utf8_text, same_text};
use crate::types::InfoHash;
use std::sync::Arc;
use vstd::prelude::*;
use vstd::string::*;
use vstd::utf8::*;

verus! {

/// Main metainfo structure representing a .torrent file
#[derive(Debug)]
pub struct TorrentInfo {
    /// Dictionary describing the file(s) of the torrent
    pub info: Arc<Info>,
    /// The announce URL of the tracker
    pub announce: String,
    /// CHECK [BEP_0012](https://www.bittorrent.org/beps/bep_0012.html)
    pub announce_list: Option<Vec<Vec<String>>>,
    pub creation_date: Option<i64>,
    pub comment: Option<String>,
    pub created_by: Option<String>,
    pub encoding: Option<String>,
    pub info_hash: InfoHash,
}

/// Info dictionary containing torrent file information
#[derive(Debug)]
pub struct Info {
    /// Number of bytes in each piece
    pub piece_length: i64,
    /// All 20-byte SHA1 hash values
    pub pieces: Vec<[u8; 20]>,
    /// Optional: Private tracker flag (1 = private, 0 or absent = public)
    pub private: Option<i64>,
    /// File mode - either single file or multiple files
    pub mode: FileMode,
}

/// Represents either single-file or multi-file torrent mode
#[derive(Debug)]
pub enum FileMode {
    /// Single file torrent
    SingleFile {
        /// Filename (advisory)
        name: String,
        /// File length in bytes
        length: i64,
        /// Optional: MD5 sum of the file
        md5sum: Option<String>,
    },
    /// Multi-file torrent
    MultiFile {
        /// Directory name to store all files (advisory)
        name: String,
        /// List of files in the torrent
        files: Vec<FileInfo>,
    },
}

/// Information about a single file in a multi-file torrent
#[derive(Debug)]
pub struct FileInfo {
    /// File length in bytes
    pub length: i64,
    /// Optional: MD5 sum of the file
    pub md5sum: Option<String>,
    /// The file's path below the torrent's directory
    pub path: FilePath,
}

/// Why a byte string is no torrent file.
#[derive(Debug)]
pub enum TorrentParseError {
    BencodeError(BencodeError),
    MissingField(String),
    InvalidFieldType(String),
    InvalidUtf8,
}

// ---------------------------------------------------------------------------------------------
// What the types mean

/// What a file entry says.
#[verifier::ext_equal]
pub struct FileView {
    pub length: int,
    pub md5sum: Option<Seq<char>>,
    pub path: Seq<char>,
}

/// What a file mode says.
#[verifier::ext_equal]
pub enum ModeView {
    Single { name: Seq<char>, length: int, md5sum: Option<Seq<char>> },
    Multi { name: Seq<char>, files: Seq<FileView> },
}

/// What an info dictionary says.
#[verifier::ext_equal]
pub struct InfoView {
    pub piece_length: int,
    pub pieces: Seq<Seq<u8>>,
    pub private: Option<int>,
    pub mode: ModeView,
}

/// What a torrent file says.
#[verifier::ext_equal]
pub struct TorrentView {
    pub info: InfoView,
    pub announce: Seq<char>,
    pub announce_list: Option<Seq<Seq<Seq<char>>>>,
    pub creation_date: Option<int>,
    pub comment: Option<Seq<char>>,
    pub created_by: Option<Seq<char>>,
    pub encoding: Option<Seq<char>>,
    pub info_hash: Seq<u8>,
}

/// What an error says.
#[verifier::ext_equal]
pub enum ErrorView {
    Bencode(BencodeError),
    MissingField(Seq<char>),
    InvalidFieldType(Seq<char>),
    InvalidUtf8,
}

pub open spec fn opt_int(n: Option<i64>) -> Option<int> {
    match n {
        Some(v) => Some(v as int),
        None => None,
    }
}

pub open spec fn texts(l: Seq<String>) -> Seq<Seq<char>> {
    Seq::new(l.len(), |i: int| l[i]@)
}

pub open spec fn tiers(l: Seq<Vec<String>>) -> Seq<Seq<Seq<char>>> {
    Seq::new(l.len(), |i: int| texts(l[i]@))
}

pub open spec fn opt_tiers(l: Option<Vec<Vec<String>>>) -> Option<Seq<Seq<Seq<char>>>> {
    match l {
        Some(v) => Some(tiers(v@)),
        None => None,
    }
}

pub open spec fn hashes(l: Seq<[u8; 20]>) -> Seq<Seq<u8>> {
    Seq::new(l.len(), |i: int| l[i]@)
}

pub open spec fn file_views(l: Seq<FileInfo>) -> Seq<FileView> {
    Seq::new(l.len(), |i: int| l[i].says())
}

impl FileInfo {
    /// What the entry says.
    pub open spec fn says(&self) -> FileView {
        FileView { length: self.length as int, md5sum: opt_text(self.md5sum), path: self.path@ }
    }
}

impl FileMode {
    /// What the mode says.
    pub open spec fn says(&self) -> ModeView {
        match self {
            FileMode::SingleFile { name, length, md5sum } => ModeView::Single {
                name: name@,
                length: *length as int,
                md5sum: opt_text(*md5sum),
            },
            FileMode::MultiFile { name, files } => ModeView::Multi {
                name: name@,
                files: file_views(files@),
            },
        }
    }
}

impl Info {
    /// What the dictionary says.
    pub open spec fn says(&self) -> InfoView {
        InfoView {
            piece_length: self.piece_length as int,
            pieces: hashes(self.pieces@),
            private: opt_int(self.private),
            mode: self.mode.says(),
        }
    }
}

impl TorrentInfo {
    /// What the torrent file says.
    pub open spec fn says(&self) -> TorrentView {
        TorrentView {
            info: self.info.says(),
            announce: self.announce@,
            announce_list: opt_tiers(self.announce_list),
            creation_date: opt_int(self.creation_date),
            comment: opt_text(self.comment),
            created_by: opt_text(self.created_by),
            encoding: opt_text(self.encoding),
            info_hash: self.info_hash@,
        }
    }
}

impl TorrentParseError {
    /// What the error says.
    pub open spec fn says(&self) -> ErrorView {
        match self {
            TorrentParseError::BencodeError(e) => ErrorView::Bencode(*e),
            TorrentParseError::MissingField(m) => ErrorView::MissingField(m@),
            TorrentParseError::InvalidFieldType(m) => ErrorView::InvalidFieldType(m@),
            TorrentParseError::InvalidUtf8 => ErrorView::InvalidUtf8,
        }
    }
}

// ---------------------------------------------------------------------------------------------
// Sizes

/// The bytes of all files together.
pub open spec fn sum_lengths(files: Seq<FileView>) -> int
    decreases files.len(),
{
    if files.len() == 0 {
        0
    } else {
        sum_lengths(files.drop_last()) + files.last().length
    }
}

/// Whether the lengths of the files can be added up in 64 bits, one after the other.
pub open spec fn lengths_fit(files: Seq<FileView>) -> bool {
    forall|k: int|
        0 <= k <= files.len() ==> i64::MIN <= sum_lengths(#[trigger] files.take(k)) <= i64::MAX
}

impl ModeView {
    /// The bytes of the torrent.
    pub open spec fn total(self) -> int {
        match self {
            ModeView::Single { length, .. } => length,
            ModeView::Multi { files, .. } => sum_lengths(files),
        }
    }

    /// Whether the size of the torrent fits in 64 bits.
    pub open spec fn size_fits(self) -> bool {
        match self {
            ModeView::Single { .. } => true,
            ModeView::Multi { files, .. } => lengths_fit(files),
        }
    }

    /// The name of the file or of the directory.
    pub open spec fn name(self) -> Seq<char> {
        match self {
            ModeView::Single { name, .. } => name,
            ModeView::Multi { name, .. } => name,
        }
    }

    /// The files of the torrent, in order.
    pub open spec fn files(self) -> Seq<FileView> {
        match self {
            ModeView::Single { name, length, md5sum } => seq![
                FileView { length, md5sum, path: name },
            ],
            ModeView::Multi { files, .. } => files,
        }
    }
}

/// The smallest number of pieces of the given length that hold the given number of bytes; where
/// there is none, as many as can be counted.
pub open spec fn piece_count(total: int, piece_length: int) -> int {
    let n = if piece_length > 0 {
        (total + piece_length - 1) / piece_length
    } else if piece_length < 0 {
        (-total + -piece_length - 1) / -piece_length
    } else if total > 0 {
        usize::MAX as int
    } else {
        0
    };
    if n < 0 {
        0
    } else if n > usize::MAX {
        usize::MAX as int
    } else {
        n
    }
}

/// How many bytes piece `i` holds: a whole piece, or what is left for the last one.
pub open spec fn piece_span(total: int, piece_length: int, i: int) -> int {
    let left = total - i * piece_length;
    let n = if left < piece_length {
        left
    } else {
        piece_length
    };
    if n < 0 {
        0
    } else if n > u32::MAX {
        u32::MAX as int
    } else {
        n
    }
}

// ---------------------------------------------------------------------------------------------
// The grammar of torrent files

/// A required byte string.
pub open spec fn bytes_field(d: Seq<(Seq<u8>, Value)>, key: Seq<char>) -> Result<
    Seq<u8>,
    ErrorView,
> {
    match entry(d, encode_utf8(key)) {
        Some(Value::Bytes(b)) => Ok(b),
        Some(_) => Err(
            ErrorView::InvalidFieldType("Expected bytes for key Ok(\""@ + key + "\")"@),
        ),
        None => Err(ErrorView::MissingField("Key Ok(\""@ + key + "\") not found"@)),
    }
}

/// A required text.
pub open spec fn text_field(d: Seq<(Seq<u8>, Value)>, key: Seq<char>) -> Result<
    Seq<char>,
    ErrorView,
> {
    match bytes_field(d, key) {
        Err(e) => Err(e),
        Ok(b) => match utf8_text(b) {
            Some(t) => Ok(t),
            None => Err(ErrorView::InvalidUtf8),
        },
    }
}

/// A required integer.
pub open spec fn int_field(d: Seq<(Seq<u8>, Value)>, key: Seq<char>) -> Result<int, ErrorView> {
    match entry(d, encode_utf8(key)) {
        Some(Value::Int(n)) => Ok(n),
        Some(_) => Err(
            ErrorView::InvalidFieldType("Expected integer for key Ok(\""@ + key + "\")"@),
        ),
        None => Err(ErrorView::MissingField("Key Ok(\""@ + key + "\") not found"@)),
    }
}

/// An optional text: absent also where it is no text.
pub open spec fn opt_text_field(d: Seq<(Seq<u8>, Value)>, key: Seq<char>) -> Option<Seq<char>> {
    match entry(d, encode_utf8(key)) {
        Some(Value::Bytes(b)) => utf8_text(b),
        _ => None,
    }
}

/// An optional integer: absent also where it is none.
pub open spec fn opt_int_field(d: Seq<(Seq<u8>, Value)>, key: Seq<char>) -> Option<int> {
    match entry(d, encode_utf8(key)) {
        Some(Value::Int(n)) => Some(n),
        _ => None,
    }
}

/// The piece hashes that a byte string holds, twenty bytes each.
pub open spec fn pieces_of(b: Seq<u8>) -> Result<Seq<Seq<u8>>, ErrorView> {
    if b.len() % 20 != 0 {
        Err(ErrorView::InvalidFieldType("Pieces length must be multiple of 20"@))
    } else {
        Ok(Seq::new(b.len() / 20, |i: int| b.subrange(20 * i, 20 * i + 20)))
    }
}

/// The path that the components from `i` on lead to.
pub open spec fn path_from(l: Seq<Value>, i: int, path: Seq<char>) -> Result<Seq<char>, ErrorView>
    decreases l.len() - i,
{
    if i < 0 || i >= l.len() {
        Ok(path)
    } else {
        match l[i] {
            Value::Bytes(b) => match utf8_text(b) {
                None => Err(ErrorView::InvalidUtf8),
                Some(t) => path_from(l, i + 1, pushed(path, t)),
            },
            _ => Err(ErrorView::InvalidFieldType("Path component must be bytes"@)),
        }
    }
}

/// The path of a file entry.
pub open spec fn path_field(d: Seq<(Seq<u8>, Value)>) -> Result<Seq<char>, ErrorView> {
    match entry(d, encode_utf8("path"@)) {
        None => Err(ErrorView::MissingField("path"@)),
        Some(Value::List(l)) => path_from(l, 0, Seq::empty()),
        Some(_) => Err(ErrorView::InvalidFieldType("Path must be a list"@)),
    }
}

/// A file entry.
pub open spec fn file_of(v: Value) -> Result<FileView, ErrorView> {
    match v {
        Value::Dict(d) => match int_field(d, "length"@) {
            Err(e) => Err(e),
            Ok(length) => match path_field(d) {
                Err(e) => Err(e),
                Ok(path) => Ok(FileView { length, md5sum: opt_text_field(d, "md5sum"@), path }),
            },
        },
        _ => Err(ErrorView::InvalidFieldType("File entry must be a dictionary"@)),
    }
}

/// The file entries from `i` on, behind those already read.
pub open spec fn files_from(l: Seq<Value>, i: int, acc: Seq<FileView>) -> Result<
    Seq<FileView>,
    ErrorView,
>
    decreases l.len() - i,
{
    if i < 0 || i >= l.len() {
        Ok(acc)
    } else {
        match file_of(l[i]) {
            Err(e) => Err(e),
            Ok(f) => files_from(l, i + 1, acc.push(f)),
        }
    }
}

/// The file entries of an info dictionary.
pub open spec fn files_field(d: Seq<(Seq<u8>, Value)>) -> Result<Seq<FileView>, ErrorView> {
    match entry(d, encode_utf8("files"@)) {
        None => Err(ErrorView::MissingField("files"@)),
        Some(Value::List(l)) => files_from(l, 0, Seq::empty()),
        Some(_) => Err(ErrorView::InvalidFieldType("Files must be a list"@)),
    }
}

/// The urls from `i` on, behind those already read.
pub open spec fn tier_from(l: Seq<Value>, i: int, acc: Seq<Seq<char>>) -> Result<
    Seq<Seq<char>>,
    ErrorView,
>
    decreases l.len() - i,
{
    if i < 0 || i >= l.len() {
        Ok(acc)
    } else {
        match l[i] {
            Value::Bytes(b) => match utf8_text(b) {
                None => Err(ErrorView::InvalidUtf8),
                Some(t) => tier_from(l, i + 1, acc.push(t)),
            },
            _ => Err(ErrorView::InvalidFieldType("Announce URL must be bytes"@)),
        }
    }
}

/// The tiers from `i` on, behind those already read.
pub open spec fn tiers_from(l: Seq<Value>, i: int, acc: Seq<Seq<Seq<char>>>) -> Result<
    Seq<Seq<Seq<char>>>,
    ErrorView,
>
    decreases l.len() - i,
{
    if i < 0 || i >= l.len() {
        Ok(acc)
    } else {
        match l[i] {
            Value::List(t) => match tier_from(t, 0, Seq::empty()) {
                Err(e) => Err(e),
                Ok(tier) => tiers_from(l, i + 1, acc.push(tier)),
            },
            _ => Err(ErrorView::InvalidFieldType("Announce-list tier must be a list"@)),
        }
    }
}

/// The tiers of trackers, where the torrent file has them.
pub open spec fn announce_list_field(d: Seq<(Seq<u8>, Value)>) -> Result<
    Option<Seq<Seq<Seq<char>>>>,
    ErrorView,
> {
    match entry(d, encode_utf8("announce-list"@)) {
        None => Ok(None),
        Some(Value::List(l)) => match tiers_from(l, 0, Seq::empty()) {
            Err(e) => Err(e),
            Ok(t) => Ok(Some(t)),
        },
        Some(_) => Err(ErrorView::InvalidFieldType("Announce-list must be a list"@)),
    }
}

/// The file mode of an info dictionary: many files where it has a list of them.
pub open spec fn mode_of(d: Seq<(Seq<u8>, Value)>) -> Result<ModeView, ErrorView> {
    match text_field(d, "name"@) {
        Err(e) => Err(e),
        Ok(name) => if entry(d, encode_utf8("files"@)) is Some {
            match files_field(d) {
                Err(e) => Err(e),
                Ok(files) => Ok(ModeView::Multi { name, files }),
            }
        } else {
            match int_field(d, "length"@) {
                Err(e) => Err(e),
                Ok(length) => Ok(
                    ModeView::Single { name, length, md5sum: opt_text_field(d, "md5sum"@) },
                ),
            }
        },
    }
}

/// An info dictionary.
pub open spec fn info_of(v: Value) -> Result<InfoView, ErrorView> {
    match v {
        Value::Dict(d) => match int_field(d, "piece length"@) {
            Err(e) => Err(e),
            Ok(piece_length) => match bytes_field(d, "pieces"@) {
                Err(e) => Err(e),
                Ok(b) => match pieces_of(b) {
                    Err(e) => Err(e),
                    Ok(pieces) => match mode_of(d) {
                        Err(e) => Err(e),
                        Ok(mode) => Ok(
                            InfoView {
                                piece_length,
                                pieces,
                                private: opt_int_field(d, "private"@),
                                mode,
                            },
                        ),
                    },
                },
            },
        },
        _ => Err(ErrorView::InvalidFieldType("Info must be a dictionary"@)),
    }
}

/// A torrent file. Its hash is that of what was read as its info dictionary, written in canonical
/// form, which is the form that the dictionary has in a file whose keys stand in order.
pub open spec fn torrent_of(v: Value) -> Result<TorrentView, ErrorView> {
    match v {
        Value::Dict(d) => match text_field(d, "announce"@) {
            Err(e) => Err(e),
            Ok(announce) => match entry(d, encode_utf8("info"@)) {
                None => Err(ErrorView::MissingField("info"@)),
                Some(w) => match info_of(w) {
                    Err(e) => Err(e),
                    Ok(info) => match announce_list_field(d) {
                        Err(e) => Err(e),
                        Ok(announce_list) => Ok(
                            TorrentView {
                                info,
                                announce,
                                announce_list,
                                creation_date: opt_int_field(d, "creation date"@),
                                comment: opt_text_field(d, "comment"@),
                                created_by: opt_text_field(d, "created by"@),
                                encoding: opt_text_field(d, "encoding"@),
                                info_hash: sha1_digest(encoded(w)),
                            },
                        ),
                    },
                },
            },
        },
        _ => Err(ErrorView::InvalidFieldType("Root must be a dictionary"@)),
    }
}

// ---------------------------------------------------------------------------------------------
// Reading

fn missing_key(key: &str) -> (r: TorrentParseError)
    ensures
        r.says() == ErrorView::MissingField("Key Ok(\""@ + key@ + "\") not found"@),
{
    TorrentParseError::MissingField(joined("Key Ok(\"", key).concat("\") not found"))
}

/// Reads a required byte string.
pub fn get_bytes_from_dict(dict: &Vec<(Vec<u8>, Bencode)>, key: &str) -> (r: Result<
    Vec<u8>,
    TorrentParseError,
>)
    ensures
        match r {
            Ok(b) => bytes_field(dict_value(dict@), key@) == Ok::<Seq<u8>, ErrorView>(b@),
            Err(e) => bytes_field(dict_value(dict@), key@) == Err::<Seq<u8>, ErrorView>(e.says()),
        },
{
    match dict_get(dict, key.as_bytes()) {
        Some(Bencode::Bytes(b)) => Ok(vstd::slice::slice_to_vec(b.as_slice())),
        Some(_) => Err(
            TorrentParseError::InvalidFieldType(
                joined("Expected bytes for key Ok(\"", key).concat("\")"),
            ),
        ),
        None => Err(missing_key(key)),
    }
}

/// Reads a required text.
pub fn get_string_from_dict(dict: &Vec<(Vec<u8>, Bencode)>, key: &str) -> (r: Result<
    String,
    TorrentParseError,
>)
    ensures
        match r {
            Ok(t) => text_field(dict_value(dict@), key@) == Ok::<Seq<char>, ErrorView>(t@),
            Err(e) => text_field(dict_value(dict@), key@) == Err::<Seq<char>, ErrorView>(e.says()),
        },
{
    match get_bytes_from_dict(dict, key) {
        Err(e) => Err(e),
        Ok(b) => match text_of(b.as_slice()) {
            Some(t) => Ok(t),
            None => Err(TorrentParseError::InvalidUtf8),
        },
    }
}

/// Reads a required integer.
pub fn get_int_from_dict(dict: &Vec<(Vec<u8>, Bencode)>, key: &str) -> (r: Result<
    i64,
    TorrentParseError,
>)
    ensures
        match r {
            Ok(n) => int_field(dict_value(dict@), key@) == Ok::<int, ErrorView>(n as int),
            Err(e) => int_field(dict_value(dict@), key@) == Err::<int, ErrorView>(e.says()),
        },
{
    match dict_get(dict, key.as_bytes()) {
        Some(Bencode::Int(n)) => Ok(*n),
        Some(_) => Err(
            TorrentParseError::InvalidFieldType(
                joined("Expected integer for key Ok(\"", key).concat("\")"),
            ),
        ),
        None => Err(missing_key(key)),
    }
}

/// Reads an optional text.
pub fn get_optional_string_from_dict(dict: &Vec<(Vec<u8>, Bencode)>, key: &str) -> (r: Option<
    String,
>)
    ensures
        opt_text(r) == opt_text_field(dict_value(dict@), key@),
{
    match dict_get(dict, key.as_bytes()) {
        Some(Bencode::Bytes(b)) => text_of(b.as_slice()),
        _ => None,
    }
}

/// Reads an optional integer.
pub fn get_optional_int_from_dict(dict: &Vec<(Vec<u8>, Bencode)>, key: &str) -> (r: Option<i64>)
    ensures
        opt_int(r) == opt_int_field(dict_value(dict@), key@),
{
    match dict_get(dict, key.as_bytes()) {
        Some(Bencode::Int(n)) => Some(*n),
        _ => None,
    }
}

/// Cuts a byte string into piece hashes.
pub fn parse_pieces(pieces_bytes: &[u8]) -> (r: Result<Vec<[u8; 20]>, TorrentParseError>)
    ensures
        match r {
            Ok(p) => pieces_of(pieces_bytes@) == Ok::<Seq<Seq<u8>>, ErrorView>(hashes(p@)),
            Err(e) => pieces_of(pieces_bytes@) == Err::<Seq<Seq<u8>>, ErrorView>(e.says()),
        },
{
    if pieces_bytes.len() % 20 != 0 {
        return Err(
            TorrentParseError::InvalidFieldType(
                String::from_str("Pieces length must be multiple of 20"),
            ),
        );
    }
    let count: usize = pieces_bytes.len() / 20;
    let mut pieces: Vec<[u8; 20]> = Vec::new();
    let mut i: usize = 0;
    while i < count
        invariant
            i <= count,
            count * 20 == pieces_bytes.len(),
            pieces.len() == i,
            forall|k: int|
                0 <= k < i ==> (#[trigger] pieces[k])@ == pieces_bytes@.subrange(20 * k, 20 * k + 20),
        decreases count - i,
    {
        let mut piece: [u8; 20] = [0u8; 20];
        let mut j: usize = 0;
        while j < 20
            invariant
                j <= 20,
                i < count,
                count * 20 == pieces_bytes.len(),
                piece@.len() == 20,
                forall|k: int| 0 <= k < j ==> piece@[k] == pieces_bytes[20 * i + k],
            decreases 20 - j,
        {
            piece[j] = pieces_bytes[20 * i + j];
            j = j + 1;
        }
        assert(piece@ =~= pieces_bytes@.subrange(20 * i, 20 * i + 20));
        pieces.push(piece);
        i = i + 1;
    }
    assert(hashes(pieces@) =~= pieces_of(pieces_bytes@)->Ok_0);
    Ok(pieces)
}

/// Reads the path of a file entry.
pub fn parse_file_path(dict: &Vec<(Vec<u8>, Bencode)>) -> (r: Result<FilePath, TorrentParseError>)
    ensures
        match r {
            Ok(p) => path_field(dict_value(dict@)) == Ok::<Seq<char>, ErrorView>(p@),
            Err(e) => path_field(dict_value(dict@)) == Err::<Seq<char>, ErrorView>(e.says()),
        },
{
    let list: &Vec<Bencode> = match dict_get(dict, "path".as_bytes()) {
        None => return Err(TorrentParseError::MissingField(String::from_str("path"))),
        Some(Bencode::List(l)) => l,
        Some(_) => return Err(
            TorrentParseError::InvalidFieldType(String::from_str("Path must be a list")),
        ),
    };
    let ghost l = list_value(list@);
    assert(Bencode::List(*list).value()->List_0 =~= l);
    let mut path = FilePath::new();
    let mut i: usize = 0;
    while i < list.len()
        invariant
            i <= list.len(),
            l == list_value(list@),
            path_from(l, 0, Seq::empty()) == path_from(l, i as int, path@),
            path_field(dict_value(dict@)) == path_from(l, 0, Seq::empty()),
        decreases list.len() - i,
    {
        match &list[i] {
            Bencode::Bytes(b) => match text_of(b.as_slice()) {
                None => return Err(TorrentParseError::InvalidUtf8),
                Some(t) => {
                    path.push(t.as_str());
                },
            },
            _ => return Err(
                TorrentParseError::InvalidFieldType(String::from_str("Path component must be bytes")),
            ),
        }
        i = i + 1;
    }
    Ok(path)
}

fn parse_file_entry(v: &Bencode) -> (r: Result<FileInfo, TorrentParseError>)
    ensures
        match r {
            Ok(f) => file_of(v.value()) == Ok::<FileView, ErrorView>(f.says()),
            Err(e) => file_of(v.value()) == Err::<FileView, ErrorView>(e.says()),
        },
{
    let dict: &Vec<(Vec<u8>, Bencode)> = match v {
        Bencode::Dict(d) => d,
        _ => return Err(
            TorrentParseError::InvalidFieldType(String::from_str("File entry must be a dictionary")),
        ),
    };
    assert(v.value()->Dict_0 =~= dict_value(dict@));
    let length: i64 = match get_int_from_dict(dict, "length") {
        Err(e) => return Err(e),
        Ok(n) => n,
    };
    let md5sum = get_optional_string_from_dict(dict, "md5sum");
    match parse_file_path(dict) {
        Err(e) => Err(e),
        Ok(path) => Ok(FileInfo { length, md5sum, path }),
    }
}

/// Reads the file entries of an info dictionary.
pub fn parse_files_list(dict: &Vec<(Vec<u8>, Bencode)>) -> (r: Result<
    Vec<FileInfo>,
    TorrentParseError,
>)
    ensures
        match r {
            Ok(f) => files_field(dict_value(dict@)) == Ok::<Seq<FileView>, ErrorView>(
                file_views(f@),
            ),
            Err(e) => files_field(dict_value(dict@)) == Err::<Seq<FileView>, ErrorView>(e.says()),
        },
{
    let list: &Vec<Bencode> = match dict_get(dict, "files".as_bytes()) {
        None => return Err(TorrentParseError::MissingField(String::from_str("files"))),
        Some(Bencode::List(l)) => l,
        Some(_) => return Err(
            TorrentParseError::InvalidFieldType(String::from_str("Files must be a list")),
        ),
    };
    let ghost l = list_value(list@);
    assert(Bencode::List(*list).value()->List_0 =~= l);
    let mut files: Vec<FileInfo> = Vec::new();
    let mut i: usize = 0;
    assert(file_views(files@) =~= Seq::<FileView>::empty());
    while i < list.len()
        invariant
            i <= list.len(),
            l == list_value(list@),
            files_from(l, 0, Seq::empty()) == files_from(l, i as int, file_views(files@)),
            files_field(dict_value(dict@)) == files_from(l, 0, Seq::empty()),
        decreases list.len() - i,
    {
        match parse_file_entry(&list[i]) {
            Err(e) => return Err(e),
            Ok(f) => {
                assert(file_views(files@.push(f)) =~= file_views(files@).push(f.says()));
                files.push(f);
            },
        }
        i = i + 1;
    }
    Ok(files)
}

fn parse_tier(list: &Vec<Bencode>) -> (r: Result<Vec<String>, TorrentParseError>)
    ensures
        match r {
            Ok(t) => tier_from(list_value(list@), 0, Seq::empty()) == Ok::<
                Seq<Seq<char>>,
                ErrorView,
            >(texts(t@)),
            Err(e) => tier_from(list_value(list@), 0, Seq::empty()) == Err::<
                Seq<Seq<char>>,
                ErrorView,
            >(e.says()),
        },
{
    let ghost l = list_value(list@);
    let mut tier: Vec<String> = Vec::new();
    let mut i: usize = 0;
    assert(texts(tier@) =~= Seq::<Seq<char>>::empty());
    while i < list.len()
        invariant
            i <= list.len(),
            l == list_value(list@),
            tier_from(l, 0, Seq::empty()) == tier_from(l, i as int, texts(tier@)),
        decreases list.len() - i,
    {
        match &list[i] {
            Bencode::Bytes(b) => match text_of(b.as_slice()) {
                None => return Err(TorrentParseError::InvalidUtf8),
                Some(t) => {
                    assert(texts(tier@.push(t)) =~= texts(tier@).push(t@));
                    tier.push(t);
                },
            },
            _ => return Err(
                TorrentParseError::InvalidFieldType(String::from_str("Announce URL must be bytes")),
            ),
        }
        i = i + 1;
    }
    Ok(tier)
}

/// Reads the tiers of trackers, where the torrent file has them.
pub fn parse_announce_list(dict: &Vec<(Vec<u8>, Bencode)>) -> (r: Result<
    Option<Vec<Vec<String>>>,
    TorrentParseError,
>)
    ensures
        match r {
            Ok(t) => announce_list_field(dict_value(dict@)) == Ok::<
                Option<Seq<Seq<Seq<char>>>>,
                ErrorView,
            >(opt_tiers(t)),
            Err(e) => announce_list_field(dict_value(dict@)) == Err::<
                Option<Seq<Seq<Seq<char>>>>,
                ErrorView,
            >(e.says()),
        },
{
    let list: &Vec<Bencode> = match dict_get(dict, "announce-list".as_bytes()) {
        None => return Ok(None),
        Some(Bencode::List(l)) => l,
        Some(_) => return Err(
            TorrentParseError::InvalidFieldType(String::from_str("Announce-list must be a list")),
        ),
    };
    let ghost l = list_value(list@);
    assert(Bencode::List(*list).value()->List_0 =~= l);
    let mut result: Vec<Vec<String>> = Vec::new();
    let mut i: usize = 0;
    assert(tiers(result@) =~= Seq::<Seq<Seq<char>>>::empty());
    while i < list.len()
        invariant
            i <= list.len(),
            l == list_value(list@),
            tiers_from(l, 0, Seq::empty()) == tiers_from(l, i as int, tiers(result@)),
            announce_list_field(dict_value(dict@)) == (match tiers_from(l, 0, Seq::empty()) {
                Err(e) => Err::<Option<Seq<Seq<Seq<char>>>>, ErrorView>(e),
                Ok(t) => Ok(Some(t)),
            }),
        decreases list.len() - i,
    {
        match &list[i] {
            Bencode::List(t) => {
                assert(l[i as int]->List_0 =~= list_value(t@));
                match parse_tier(t) {
                    Err(e) => return Err(e),
                    Ok(tier) => {
                        assert(tiers(result@.push(tier)) =~= tiers(result@).push(texts(tier@)));
                        result.push(tier);
                    },
                }
            },
            _ => return Err(
                TorrentParseError::InvalidFieldType(
                    String::from_str("Announce-list tier must be a list"),
                ),
            ),
        }
        i = i + 1;
    }
    Ok(Some(result))
}

fn parse_mode(dict: &Vec<(Vec<u8>, Bencode)>) -> (r: Result<FileMode, TorrentParseError>)
    ensures
        match r {
            Ok(m) => mode_of(dict_value(dict@)) == Ok::<ModeView, ErrorView>(m.says()),
            Err(e) => mode_of(dict_value(dict@)) == Err::<ModeView, ErrorView>(e.says()),
        },
{
    let name = match get_string_from_dict(dict, "name") {
        Err(e) => return Err(e),
        Ok(name) => name,
    };
    if dict_get(dict, "files".as_bytes()).is_some() {
        match parse_files_list(dict) {
            Err(e) => Err(e),
            Ok(files) => Ok(FileMode::MultiFile { name, files }),
        }
    } else {
        let length: i64 = match get_int_from_dict(dict, "length") {
            Err(e) => return Err(e),
            Ok(n) => n,
        };
        let md5sum = get_optional_string_from_dict(dict, "md5sum");
        Ok(FileMode::SingleFile { name, length, md5sum })
    }
}

/// Reads an info dictionary.
pub fn parse_info_dict(info_bencode: &Bencode) -> (r: Result<Info, TorrentParseError>)
    ensures
        match r {
            Ok(i) => info_of(info_bencode.value()) == Ok::<InfoView, ErrorView>(i.says()),
            Err(e) => info_of(info_bencode.value()) == Err::<InfoView, ErrorView>(e.says()),
        },
{
    let dict: &Vec<(Vec<u8>, Bencode)> = match info_bencode {
        Bencode::Dict(d) => d,
        _ => return Err(
            TorrentParseError::InvalidFieldType(String::from_str("Info must be a dictionary")),
        ),
    };
    assert(info_bencode.value()->Dict_0 =~= dict_value(dict@));
    let piece_length: i64 = match get_int_from_dict(dict, "piece length") {
        Err(e) => return Err(e),
        Ok(n) => n,
    };
    let pieces_bytes = match get_bytes_from_dict(dict, "pieces") {
        Err(e) => return Err(e),
        Ok(b) => b,
    };
    let pieces = match parse_pieces(pieces_bytes.as_slice()) {
        Err(e) => return Err(e),
        Ok(p) => p,
    };
    let private = get_optional_int_from_dict(dict, "private");
    match parse_mode(dict) {
        Err(e) => Err(e),
        Ok(mode) => Ok(Info { piece_length, pieces, private, mode }),
    }
}

/// The SHA-1 hash of an info dictionary as it is bencoded.
pub fn calculate_info_hash(info: &Bencode) -> (r: [u8; 20])
    ensures
        r@ == sha1_digest(encoded(info.value())),
{
    sha1(Bencode::encoder(info).as_slice())
}

/// Reads a torrent file from its bencoded value.
pub fn parse_torrent_from_bencode(bencode: &Bencode) -> (r: Result<TorrentInfo, TorrentParseError>)
    ensures
        match r {
            Ok(t) => torrent_of(bencode.value()) == Ok::<TorrentView, ErrorView>(t.says()),
            Err(e) => torrent_of(bencode.value()) == Err::<TorrentView, ErrorView>(e.says()),
        },
{
    let dict: &Vec<(Vec<u8>, Bencode)> = match bencode {
        Bencode::Dict(d) => d,
        _ => return Err(
            TorrentParseError::InvalidFieldType(String::from_str("Root must be a dictionary")),
        ),
    };
    assert(bencode.value()->Dict_0 =~= dict_value(dict@));
    let announce = match get_string_from_dict(dict, "announce") {
        Err(e) => return Err(e),
        Ok(a) => a,
    };
    let info_bencode: &Bencode = match dict_get(dict, "info".as_bytes()) {
        None => return Err(TorrentParseError::MissingField(String::from_str("info"))),
        Some(b) => b,
    };
    let info = match parse_info_dict(info_bencode) {
        Err(e) => return Err(e),
        Ok(i) => Arc::new(i),
    };
    let info_hash = InfoHash::new(calculate_info_hash(info_bencode));
    let announce_list = match parse_announce_list(dict) {
        Err(e) => return Err(e),
        Ok(l) => l,
    };
    let creation_date = get_optional_int_from_dict(dict, "creation date");
    let comment = get_optional_string_from_dict(dict, "comment");
    let created_by = get_optional_string_from_dict(dict, "created by");
    let encoding = get_optional_string_from_dict(dict, "encoding");
    Ok(
        TorrentInfo {
            info,
            announce,
            announce_list,
            creation_date,
            comment,
            created_by,
            encoding,
            info_hash,
        },
    )
}

/// Reads a torrent file from its bytes.
pub fn parse_torrent_from_bytes(data: &[u8]) -> (r: Result<TorrentInfo, TorrentParseError>)
    ensures
        match parsed(data@) {
            Err(e) => r matches Err(f) && f.says() == ErrorView::Bencode(e),
            Ok((v, n)) => match r {
                Ok(t) => torrent_of(v) == Ok::<TorrentView, ErrorView>(t.says()),
                Err(f) => torrent_of(v) == Err::<TorrentView, ErrorView>(f.says()),
            },
        },
{
    match Bencode::decode(data) {
        Err(e) => Err(TorrentParseError::BencodeError(e)),
        Ok(b) => parse_torrent_from_bencode(&b),
    }
}

// ---------------------------------------------------------------------------------------------
// What can be asked of a torrent

impl FileMode {
    /// Check if this is a single-file torrent
    pub fn is_single_file(&self) -> (r: bool)
        ensures
            r == (self is SingleFile),
    {
        matches!(self, FileMode::SingleFile { .. })
    }

    /// Check if this is a multi-file torrent
    pub fn is_multi_file(&self) -> (r: bool)
        ensures
            r == (self is MultiFile),
    {
        matches!(self, FileMode::MultiFile { .. })
    }

    /// The bytes of all files together
    pub fn length(&self) -> (r: i64)
        requires
            self.says().size_fits(),
        ensures
            r == self.says().total(),
    {
        match self {
            FileMode::SingleFile { length, .. } => *length,
            FileMode::MultiFile { files, .. } => {
                let ghost views = file_views(files@);
                let mut sum: i64 = 0;
                let mut i: usize = 0;
                assert(views.take(0) =~= Seq::<FileView>::empty());
                while i < files.len()
                    invariant
                        i <= files.len(),
                        views == file_views(files@),
                        lengths_fit(views),
                        sum == sum_lengths(views.take(i as int)),
                    decreases files.len() - i,
                {
                    proof {
                        let next = views.take(i + 1);
                        assert(next.drop_last() =~= views.take(i as int));
                        assert(next.last() == files[i as int].says());
                        assert(i64::MIN <= sum_lengths(next) <= i64::MAX);
                    }
                    sum = sum + files[i].length;
                    i = i + 1;
                }
                assert(views.take(files.len() as int) =~= views);
                sum
            },
        }
    }

    /// Whether the bytes of all files can be counted in 64 bits
    pub fn size_fits(&self) -> (r: bool)
        ensures
            r == self.says().size_fits(),
    {
        match self {
            FileMode::SingleFile { .. } => true,
            FileMode::MultiFile { files, .. } => {
                let ghost views = file_views(files@);
                let mut sum: i64 = 0;
                let mut i: usize = 0;
                assert(views.take(0) =~= Seq::<FileView>::empty());
                while i < files.len()
                    invariant
                        i <= files.len(),
                        views == file_views(files@),
                        self.says() matches ModeView::Multi { files: f, .. } && f == views,
                        sum == sum_lengths(views.take(i as int)),
                        forall|k: int|
                            0 <= k <= i ==> i64::MIN <= sum_lengths(#[trigger] views.take(k))
                                <= i64::MAX,
                    decreases files.len() - i,
                {
                    let ghost next = views.take(i + 1);
                    assert(next.drop_last() =~= views.take(i as int));
                    assert(next.last() == files[i as int].says());
                    match sum.checked_add(files[i].length) {
                        Some(s) => {
                            sum = s;
                        },
                        None => {
                            assert(!(i64::MIN <= sum_lengths(next) <= i64::MAX));
                            return false;
                        },
                    }
                    i = i + 1;
                }
                true
            },
        }
    }

    /// Get the name of the torrent (filename for single-file, directory name for multi-file)
    pub fn name(&self) -> (r: &str)
        ensures
            r@ == self.says().name(),
    {
        match self {
            FileMode::SingleFile { name, .. } => name.as_str(),
            FileMode::MultiFile { name, .. } => name.as_str(),
        }
    }

    /// The files of the torrent, in order; a single file goes by the torrent's name
    pub fn files(&self) -> (r: Vec<FileInfo>)
        ensures
            file_views(r@) == self.says().files(),
    {
        let mut r: Vec<FileInfo> = Vec::new();
        match self {
            FileMode::SingleFile { name, length, md5sum } => {
                r.push(
                    FileInfo {
                        length: *length,
                        md5sum: copy_opt_text(md5sum),
                        path: FilePath::from_text(name.as_str()),
                    },
                );
                assert(file_views(r@) =~= self.says().files());
            },
            FileMode::MultiFile { files, .. } => {
                let mut i: usize = 0;
                while i < files.len()
                    invariant
                        i <= files.len(),
                        r.len() == i,
                        forall|k: int| 0 <= k < i ==> (#[trigger] r[k]).says() == files[k].says(),
                    decreases files.len() - i,
                {
                    r.push(
                        FileInfo {
                            length: files[i].length,
                            md5sum: copy_opt_text(&files[i].md5sum),
                            path: FilePath::from_text(files[i].path.as_str()),
                        },
                    );
                    i = i + 1;
                }
                assert(file_views(r@) =~= self.says().files());
            },
        }
        r
    }
}

/// How many bytes piece `i` holds.
fn span_of_piece(total: i64, piece_length: i64, i: usize) -> (r: u32)
    ensures
        r == piece_span(total as int, piece_length as int, i as int),
{
    proof {
        // the product keeps away from the limits of 128 bits
        let p = piece_length as int;
        let k = i as int;
        assert(-0x8000_0000_0000_0000 * 0xffff_ffff_ffff_ffff <= k * p <= 0x7fff_ffff_ffff_ffff
            * 0xffff_ffff_ffff_ffff) by (nonlinear_arith)
            requires
                0 <= k <= 0xffff_ffff_ffff_ffff,
                -0x8000_0000_0000_0000 <= p <= 0x7fff_ffff_ffff_ffff,
        ;
    }
    let product: i128 = i as i128 * piece_length as i128;
    let left: i128 = total as i128 - product;
    let n: i128 = if left < piece_length as i128 {
        left
    } else {
        piece_length as i128
    };
    if n < 0 {
        0
    } else if n > u32::MAX as i128 {
        u32::MAX
    } else {
        n as u32
    }
}

impl Info {
    /// Get the total size of all files in the torrent
    pub fn total_size(&self) -> (r: i64)
        requires
            self.says().mode.size_fits(),
        ensures
            r == self.says().mode.total(),
    {
        self.mode.length()
    }

    /// The number of pieces that the dictionary has hashes of
    pub fn num_pieces(&self) -> (r: usize)
        ensures
            r == self.pieces.len(),
    {
        self.pieces.len()
    }

    /// The number of bytes in a piece, the last one holding what is left
    pub fn get_piece_len(&self, index: usize) -> (r: u32)
        requires
            self.says().mode.size_fits(),
        ensures
            r == piece_span(
                self.says().mode.total(),
                self.piece_length as int,
                index as int,
            ),
    {
        span_of_piece(self.mode.length(), self.piece_length, index)
    }

    /// The hash of a piece, where there is such a piece
    pub fn get_piece_hash(&self, index: usize) -> (r: Option<&[u8; 20]>)
        ensures
            match r {
                Some(h) => index < self.pieces.len() && *h == self.pieces[index as int],
                None => index >= self.pieces.len(),
            },
    {
        if index < self.pieces.len() {
            Some(&self.pieces[index])
        } else {
            None
        }
    }

    /// The files of the torrent, in order
    pub fn files(&self) -> (r: Vec<FileInfo>)
        ensures
            file_views(r@) == self.says().mode.files(),
    {
        self.mode.files()
    }
}

/// The texts in their order, each only where it comes first.
pub open spec fn distinct(l: Seq<Seq<char>>) -> Seq<Seq<char>>
    decreases l.len(),
{
    if l.len() == 0 {
        Seq::empty()
    } else if distinct(l.drop_last()).contains(l.last()) {
        distinct(l.drop_last())
    } else {
        distinct(l.drop_last()).push(l.last())
    }
}

/// The texts of all tiers, one tier behind the other.
pub open spec fn flattened(l: Seq<Seq<Seq<char>>>) -> Seq<Seq<char>>
    decreases l.len(),
{
    if l.len() == 0 {
        Seq::empty()
    } else {
        flattened(l.drop_last()) + l.last()
    }
}

/// Where there are texts, some are left when repetitions are taken out.
pub proof fn some_are_distinct(s: Seq<Seq<char>>)
    requires
        s.len() > 0,
    ensures
        distinct(s).len() > 0,
    decreases s.len(),
{
    if s.len() > 1 {
        some_are_distinct(s.drop_last());
    }
}

impl TorrentView {
    /// All tracker urls, the main one first, none twice.
    pub open spec fn trackers(self) -> Seq<Seq<char>> {
        distinct(
            seq![self.announce] + match self.announce_list {
                Some(l) => flattened(l),
                None => Seq::empty(),
            },
        )
    }
}

/// Adds a url unless it is there.
fn push_distinct(urls: &mut Vec<String>, url: &String, Ghost(all): Ghost<Seq<Seq<char>>>)
    requires
        texts(old(urls)@) == distinct(all),
    ensures
        texts(final(urls)@) == distinct(all.push(url@)),
{
    let ghost before = urls@;
    proof {
        assert(all.push(url@).drop_last() =~= all);
    }
    let mut i: usize = 0;
    while i < urls.len()
        invariant
            i <= urls.len(),
            urls@ == before,
            texts(before) == distinct(all),
            all.push(url@).drop_last() == all,
            forall|k: int| 0 <= k < i ==> (#[trigger] urls[k])@ != url@,
        decreases urls.len() - i,
    {
        if same_text(urls[i].as_str(), url.as_str()) {
            assert(texts(before)[i as int] == url@);
            assert(distinct(all).contains(url@));
            return ;
        }
        i = i + 1;
    }
    proof {
        assert forall|k: int| 0 <= k < distinct(all).len() implies distinct(all)[k] != url@ by {
            assert(texts(before)[k] == urls[k]@);
        }
        assert(!distinct(all).contains(url@));
    }
    urls.push(url.clone());
    assert(texts(urls@) =~= texts(before).push(url@));
}

impl TorrentInfo {
    /// Get the total size of all files in the torrent
    pub fn total_size(&self) -> (r: i64)
        requires
            self.says().info.mode.size_fits(),
        ensures
            r == self.says().info.mode.total(),
    {
        self.info.mode.length()
    }

    /// Get the number of pieces in the torrent
    pub fn num_pieces(&self) -> (r: usize)
        requires
            self.says().info.mode.size_fits(),
        ensures
            r == piece_count(self.says().info.mode.total(), self.info.piece_length as int),
    {
        let total: i128 = self.total_size() as i128;
        let piece_length: i128 = self.info.piece_length as i128;
        if piece_length == 0 {
            return if total > 0 {
                usize::MAX
            } else {
                0
            };
        }
        let (t, p): (i128, i128) = if piece_length > 0 {
            (total, piece_length)
        } else {
            (-total, -piece_length)
        };
        let sum: i128 = t + p - 1;
        if sum < 0 {
            proof {
                vstd::arithmetic::div_mod::lemma_fundamental_div_mod(sum as int, p as int);
                assert(sum as int / p as int <= 0) by (nonlinear_arith)
                    requires
                        sum < 0,
                        p > 0,
                ;
            }
            return 0;
        }
        let n: i128 = sum / p;
        proof {
            assert(0 <= sum as int / p as int) by (nonlinear_arith)
                requires
                    sum >= 0,
                    p > 0,
            ;
        }
        if n > usize::MAX as i128 {
            usize::MAX
        } else {
            n as usize
        }
    }

    /// Get all tracker URLs (primary + announce-list)
    pub fn all_trackers(&self) -> (r: Vec<String>)
        ensures
            texts(r@) == self.says().trackers(),
    {
        let mut urls: Vec<String> = Vec::new();
        let ghost mut all: Seq<Seq<char>> = Seq::empty();
        assert(texts(urls@) =~= distinct(all));
        push_distinct(&mut urls, &self.announce, Ghost(all));
        proof {
            all = seq![self.announce@];
            assert(Seq::<Seq<char>>::empty().push(self.announce@) =~= all);
        }
        match &self.announce_list {
            None => {
                assert(all + Seq::<Seq<char>>::empty() =~= all);
            },
            Some(list) => {
                let ghost first = all;
                let ghost views = tiers(list@);
                let mut i: usize = 0;
                assert(views.take(0) =~= Seq::<Seq<Seq<char>>>::empty());
                assert(first + flattened(views.take(0)) =~= first);
                while i < list.len()
                    invariant
                        i <= list.len(),
                        views == tiers(list@),
                        all == first + flattened(views.take(i as int)),
                        texts(urls@) == distinct(all),
                    decreases list.len() - i,
                {
                    let tier: &Vec<String> = &list[i];
                    let ghost start = all;
                    let mut j: usize = 0;
                    assert(start + texts(tier@).take(0) =~= start);
                    while j < tier.len()
                        invariant
                            j <= tier.len(),
                            all == start + texts(tier@).take(j as int),
                            texts(urls@) == distinct(all),
                        decreases tier.len() - j,
                    {
                        push_distinct(&mut urls, &tier[j], Ghost(all));
                        proof {
                            assert(all.push(tier[j as int]@) =~= start + texts(tier@).take(j + 1));
                            all = start + texts(tier@).take(j + 1);
                        }
                        j = j + 1;
                    }
                    proof {
                        assert(texts(tier@).take(tier.len() as int) =~= texts(tier@));
                        assert(views.take(i + 1).drop_last() =~= views.take(i as int));
                        assert(views.take(i + 1).last() == texts(tier@));
                        assert(all =~= first + flattened(views.take(i + 1)));
                    }
                    i = i + 1;
                }
                assert(views.take(list.len() as int) =~= views);
            },
        }
        urls
    }

    /// Check if this is a private torrent
    pub fn is_private(&self) -> (r: bool)
        ensures
            r == (self.info.private == Some(1i64)),
    {
        match self.info.private {
            Some(p) => p == 1,
            None => false,
        }
    }

    /// The files of the torrent, in order
    pub fn files(&self) -> (r: Vec<FileInfo>)
        ensures
            file_views(r@) == self.says().info.mode.files(),
    {
        self.info.mode.files()
    }

    /// The hash of a piece, where there is such a piece
    pub fn get_piece_hash(&self, index: usize) -> (r: Option<&[u8; 20]>)
        ensures
            match r {
                Some(h) => index < self.info.pieces.len() && *h == self.info.pieces[index as int],
                None => index >= self.info.pieces.len(),
            },
    {
        self.info.get_piece_hash(index)
    }
}

impl FileInfo {
    /// Get the filename (last component of the path)
    pub fn filename(&self) -> (r: Option<&str>)
        ensures
            match r {
                Some(s) => file_name(self.path@) == Some(s@),
                None => file_name(self.path@) is None,
            },
    {
        self.path.file_name()
    }

    /// Get the directory path (parent directory)
    pub fn directory_path(&self) -> (r: Option<FilePath>)
        ensures
            match r {
                Some(p) => parent(self.path@) == Some(p@),
                None => parent(self.path@) is None,
            },
    {
        self.path.parent()
    }

    /// Get the file extension
    pub fn extension(&self) -> (r: Option<&str>)
        ensures
            match r {
                Some(s) => extension(self.path@) == Some(s@),
                None => extension(self.path@) is None,
            },
    {
        self.path.extension()
    }

    /// Get the full path as a string
    pub fn path_str(&self) -> (r: Option<&str>)
        ensures
            r matches Some(s) && s@ == self.path@,
    {
        Some(self.path.as_str())
    }

    /// Get the path components as a vector of strings (for bencode serialization)
    pub fn path_components(&self) -> (r: Vec<String>)
        ensures
            texts(r@) == components(self.path@),
    {
        let r = self.path.components();
        assert(texts(r@) =~= components(self.path@));
        r
    }
}

/// The hashes one behind the other.
pub open spec fn concatenated(l: Seq<Seq<u8>>) -> Seq<u8>
    decreases l.len(),
{
    if l.len() == 0 {
        Seq::empty()
    } else {
        concatenated(l.drop_last()) + l.last()
    }
}

/// The entry of a text, where there is one.
pub open spec fn text_entry(key: Seq<char>, t: Option<Seq<char>>) -> Seq<(Seq<u8>, Value)> {
    match t {
        Some(t) => seq![(encode_utf8(key), Value::Bytes(encode_utf8(t)))],
        None => Seq::empty(),
    }
}

/// The entry of a number, where there is one.
pub open spec fn int_entry(key: Seq<char>, n: Option<int>) -> Seq<(Seq<u8>, Value)> {
    match n {
        Some(n) => seq![(encode_utf8(key), Value::Int(n))],
        None => Seq::empty(),
    }
}

/// A list of texts.
pub open spec fn texts_value(l: Seq<Seq<char>>) -> Value {
    Value::List(Seq::new(l.len(), |k: int| Value::Bytes(encode_utf8(l[k]))))
}

/// The dictionary that a file is written as.
pub open spec fn file_entry(f: FileView) -> Value {
    Value::Dict(
        int_entry("length"@, Some(f.length)) + text_entry("md5sum"@, f.md5sum) + seq![
            (encode_utf8("path"@), texts_value(components(f.path))),
        ],
    )
}

/// The entries that say which files there are.
pub open spec fn mode_entries(m: ModeView) -> Seq<(Seq<u8>, Value)> {
    match m {
        ModeView::Single { length, md5sum, .. } => int_entry("length"@, Some(length)) + text_entry(
            "md5sum"@,
            md5sum,
        ),
        ModeView::Multi { files, .. } => seq![
            (
                encode_utf8("files"@),
                Value::List(Seq::new(files.len(), |k: int| file_entry(files[k]))),
            ),
        ],
    }
}

/// The dictionary that an info is written as.
pub open spec fn info_value(i: InfoView) -> Value {
    Value::Dict(
        mode_entries(i.mode) + text_entry("name"@, Some(i.mode.name())) + int_entry(
            "piece length"@,
            Some(i.piece_length),
        ) + seq![(encode_utf8("pieces"@), Value::Bytes(concatenated(i.pieces)))] + int_entry(
            "private"@,
            i.private,
        ),
    )
}

/// Puts an entry behind others
fn put(d: &mut Vec<(Vec<u8>, Bencode)>, key: &str, v: Bencode)
    ensures
        dict_value(final(d)@) == dict_value(old(d)@) + seq![(encode_utf8(key@), v.value())],
{
    d.push((key.as_bytes_vec(), v));
    assert(dict_value(d@) =~= dict_value(old(d)@) + seq![(encode_utf8(key@), v.value())]);
}

/// Puts the entry of a text behind others, where there is one
fn put_text(d: &mut Vec<(Vec<u8>, Bencode)>, key: &str, t: &Option<String>)
    ensures
        dict_value(final(d)@) == dict_value(old(d)@) + text_entry(key@, opt_text(*t)),
{
    match t {
        Some(t) => put(d, key, Bencode::Bytes(t.as_str().as_bytes_vec())),
        None => {
            assert(dict_value(d@) + Seq::<(Seq<u8>, Value)>::empty() =~= dict_value(d@));
        },
    }
}

/// A list of texts
fn texts_bencode(l: &Vec<String>) -> (r: Bencode)
    ensures
        r.value() == texts_value(texts(l@)),
{
    let mut items: Vec<Bencode> = Vec::new();
    let mut i: usize = 0;
    while i < l.len()
        invariant
            i <= l.len(),
            items.len() == i,
            forall|k: int|
                0 <= k < i ==> (#[trigger] items@[k]).value() == Value::Bytes(
                    encode_utf8(l@[k]@),
                ),
        decreases l.len() - i,
    {
        items.push(Bencode::Bytes(l[i].as_str().as_bytes_vec()));
        i = i + 1;
    }
    let r = Bencode::List(items);
    assert(r.value()->List_0 =~= texts_value(texts(l@))->List_0);
    r
}

impl FileInfo {
    /// The dictionary that the file is written as
    fn to_entry(&self) -> (r: Bencode)
        ensures
            r.value() == file_entry(self.says()),
    {
        let mut d: Vec<(Vec<u8>, Bencode)> = Vec::new();
        put(&mut d, "length", Bencode::Int(self.length));
        put_text(&mut d, "md5sum", &self.md5sum);
        put(&mut d, "path", texts_bencode(&self.path_components()));
        let r = Bencode::Dict(d);
        assert(r.value()->Dict_0 =~= dict_value(d@));
        assert(r.value()->Dict_0 =~= file_entry(self.says())->Dict_0);
        r
    }
}

impl FileMode {
    /// Puts the entries behind others that say which files there are
    fn put_entries(&self, d: &mut Vec<(Vec<u8>, Bencode)>)
        ensures
            dict_value(final(d)@) == dict_value(old(d)@) + mode_entries(self.says()),
    {
        let ghost before = dict_value(d@);
        match self {
            FileMode::SingleFile { length, md5sum, .. } => {
                put(d, "length", Bencode::Int(*length));
                put_text(d, "md5sum", md5sum);
                assert(dict_value(d@) =~= before + mode_entries(self.says()));
            },
            FileMode::MultiFile { files, .. } => {
                let mut items: Vec<Bencode> = Vec::new();
                let mut i: usize = 0;
                while i < files.len()
                    invariant
                        i <= files.len(),
                        items.len() == i,
                        forall|k: int|
                            0 <= k < i ==> (#[trigger] items@[k]).value() == file_entry(
                                files@[k].says(),
                            ),
                    decreases files.len() - i,
                {
                    items.push(files[i].to_entry());
                    i = i + 1;
                }
                let l = Bencode::List(items);
                assert(l.value()->List_0 =~= mode_entries(self.says())[0].1->List_0);
                put(d, "files", l);
            },
        }
    }
}

impl Encode for Info {
    open spec fn encodable(&self) -> bool {
        true
    }

    open spec fn bencode_value(&self) -> Value {
        info_value(self.says())
    }

    fn to_bencode(&self) -> (r: Bencode) {
        let mut joined_hashes: Vec<u8> = Vec::new();
        let ghost h = hashes(self.pieces@);
        let mut i: usize = 0;
        assert(h.take(0) =~= Seq::<Seq<u8>>::empty());
        while i < self.pieces.len()
            invariant
                i <= self.pieces.len(),
                h == hashes(self.pieces@),
                joined_hashes@ == concatenated(h.take(i as int)),
            decreases self.pieces.len() - i,
        {
            joined_hashes.extend_from_slice(self.pieces[i].as_slice());
            proof {
                assert(h.take(i + 1).drop_last() =~= h.take(i as int));
                assert(h.take(i + 1).last() == self.pieces[i as int]@);
                assert(joined_hashes@ =~= concatenated(h.take(i + 1)));
            }
            i = i + 1;
        }
        assert(h.take(self.pieces.len() as int) =~= h);
        let mut d: Vec<(Vec<u8>, Bencode)> = Vec::new();
        self.mode.put_entries(&mut d);
        put(&mut d, "name", Bencode::Bytes(self.mode.name().as_bytes_vec()));
        put(&mut d, "piece length", Bencode::Int(self.piece_length));
        put(&mut d, "pieces", Bencode::Bytes(joined_hashes));
        match self.private {
            Some(n) => put(&mut d, "private", Bencode::Int(n)),
            None => {},
        }
        let r = Bencode::Dict(d);
        proof {
            assert(r.value()->Dict_0 =~= dict_value(d@));
            assert(dict_value(d@) =~= info_value(self.says())->Dict_0);
        }
        r
    }
}

/// The dictionary of a torrent file: the first tracker, all of them in a tier each, and the info.
pub open spec fn file_value(trackers: Seq<Seq<char>>, info: InfoView) -> Value {
    Value::Dict(
        seq![
            (
                encode_utf8("announce"@),
                Value::Bytes(
                    if trackers.len() > 0 {
                        encode_utf8(trackers[0])
                    } else {
                        Seq::empty()
                    },
                ),
            ),
            (
                encode_utf8("announce-list"@),
                Value::List(
                    Seq::new(
                        trackers.len(),
                        |k: int| Value::List(seq![Value::Bytes(encode_utf8(trackers[k]))]),
                    ),
                ),
            ),
            (encode_utf8("info"@), info_value(info)),
        ],
    )
}

/// The dictionary of a torrent file that is made of trackers and an info
pub fn torrent_file(trackers: &Vec<String>, info: &Info) -> (r: Bencode)
    ensures
        r.value() == file_value(texts(trackers@), info.says()),
{
    let ghost urls = texts(trackers@);
    let announce: Vec<u8> = if trackers.len() > 0 {
        trackers[0].as_str().as_bytes_vec()
    } else {
        Vec::new()
    };
    let mut tiers: Vec<Bencode> = Vec::new();
    let mut i: usize = 0;
    while i < trackers.len()
        invariant
            i <= trackers.len(),
            tiers.len() == i,
            forall|k: int|
                0 <= k < i ==> (#[trigger] tiers@[k]).value() == Value::List(
                    seq![Value::Bytes(encode_utf8(trackers@[k]@))],
                ),
        decreases trackers.len() - i,
    {
        let mut tier: Vec<Bencode> = Vec::new();
        tier.push(Bencode::Bytes(trackers[i].as_str().as_bytes_vec()));
        let tier = Bencode::List(tier);
        proof {
            reveal_with_fuel(Bencode::value, 2);
            assert(tier.value()->List_0 =~= seq![Value::Bytes(encode_utf8(trackers@[i as int]@))]);
        }
        tiers.push(tier);
        i = i + 1;
    }
    let tiers = Bencode::List(tiers);
    let said = info.to_bencode();
    proof {
        let meant = file_value(urls, info.says())->Dict_0;
        assert(tiers.value()->List_0 =~= meant[1].1->List_0);
    }
    let mut d: Vec<(Vec<u8>, Bencode)> = Vec::new();
    d.push(("announce".as_bytes_vec(), Bencode::Bytes(announce)));
    d.push(("announce-list".as_bytes_vec(), tiers));
    d.push(("info".as_bytes_vec(), said));
    let r = Bencode::Dict(d);
    proof {
        reveal_with_fuel(Bencode::value, 2);
        let made = r.value()->Dict_0;
        let meant = file_value(urls, info.says())->Dict_0;
        assert(made.len() == 3 && meant.len() == 3);
        assert(made[0] == meant[0]);
        assert(made[1] == meant[1]);
        assert(made[2] == meant[2]);
        assert(made =~= meant);
    }
    r
}

// ---------------------------------------------------------------------------------------------
// Laws

proof fn encodings_differ(a: Seq<char>, b: Seq<char>)
    requires
        a != b,
    ensures
        encode_utf8(a) != encode_utf8(b),
{
    encode_utf8_decode_utf8(a);
    encode_utf8_decode_utf8(b);
}

proof fn concatenation_splits(l: Seq<Seq<u8>>)
    requires
        forall|i: int| 0 <= i < l.len() ==> (#[trigger] l[i]).len() == 20,
    ensures
        concatenated(l).len() == 20 * l.len(),
        forall|i: int|
            0 <= i < l.len() ==> concatenated(l).subrange(20 * i, 20 * i + 20) == #[trigger] l[i],
    decreases l.len(),
{
    if l.len() > 0 {
        let front = l.drop_last();
        concatenation_splits(front);
        let c = concatenated(l);
        assert forall|i: int| 0 <= i < l.len() implies c.subrange(20 * i, 20 * i + 20)
            == #[trigger] l[i] by {
            if i < front.len() {
                assert(c.subrange(20 * i, 20 * i + 20) =~= concatenated(front).subrange(
                    20 * i,
                    20 * i + 20,
                ));
                assert(front[i] == l[i]);
            } else {
                assert(c.subrange(20 * i, 20 * i + 20) =~= l.last());
            }
        }
    }
}

proof fn entry_in_sum(a: Seq<(Seq<u8>, Value)>, b: Seq<(Seq<u8>, Value)>, key: Seq<u8>)
    ensures
        entry(a + b, key) == match entry(a, key) {
            Some(v) => Some(v),
            None => entry(b, key),
        },
    decreases a.len(),
{
    if a.len() == 0 {
        assert(a + b =~= b);
    } else {
        assert((a + b)[0] == a[0]);
        assert((a + b).skip(1) =~= a.skip(1) + b);
        entry_in_sum(a.skip(1), b, key);
    }
}

proof fn entry_of_one(key: Seq<char>, v: Value, wanted: Seq<char>)
    ensures
        entry(seq![(encode_utf8(key), v)], encode_utf8(wanted)) == if key == wanted {
            Some(v)
        } else {
            None
        },
{
    let one = seq![(encode_utf8(key), v)];
    assert(one.skip(1).len() == 0);
    reveal_with_fuel(entry, 2);
    if key != wanted {
        encodings_differ(key, wanted);
    }
}

proof fn entry_of_text(key: Seq<char>, t: Option<Seq<char>>, wanted: Seq<char>)
    ensures
        entry(text_entry(key, t), encode_utf8(wanted)) == if key == wanted && t is Some {
            Some(Value::Bytes(encode_utf8(t->0)))
        } else {
            None
        },
{
    if t is Some {
        entry_of_one(key, Value::Bytes(encode_utf8(t->0)), wanted);
    }
}

proof fn entry_of_int(key: Seq<char>, n: Option<int>, wanted: Seq<char>)
    ensures
        entry(int_entry(key, n), encode_utf8(wanted)) == if key == wanted && n is Some {
            Some(Value::Int(n->0))
        } else {
            None
        },
{
    if n is Some {
        entry_of_one(key, Value::Int(n->0), wanted);
    }
}

proof fn text_encodes_back(t: Seq<char>)
    ensures
        utf8_text(encode_utf8(t)) == Some(t),
{
    encode_utf8_valid_utf8(t);
    encode_utf8_decode_utf8(t);
}

proof fn path_reads_back(l: Seq<Seq<char>>, i: int)
    requires
        0 <= i <= l.len(),
    ensures
        path_from(texts_value(l)->List_0, i, path_of(l.take(i))) == Ok::<Seq<char>, ErrorView>(
            path_of(l),
        ),
    decreases l.len() - i,
{
    if i < l.len() {
        text_encodes_back(l[i]);
        assert(l.take(i + 1).drop_last() =~= l.take(i));
        path_reads_back(l, i + 1);
    } else {
        assert(l.take(i) =~= l);
    }
}

/// Whether the path of a file is the one that its components lead to.
pub open spec fn keeps_its_components(f: FileView) -> bool {
    path_of(components(f.path)) == f.path
}

/// A file is read back from the dictionary that it is written as.
pub proof fn written_file_entry_reads_back(f: FileView)
    requires
        keeps_its_components(f),
    ensures
        file_of(file_entry(f)) == Ok::<FileView, ErrorView>(f),
{
    reveal_strlit("length");
    reveal_strlit("md5sum");
    reveal_strlit("path");
    assert("length"@[0] != "md5sum"@[0]);
    let length = int_entry("length"@, Some(f.length));
    let md5sum = text_entry("md5sum"@, f.md5sum);
    let list = texts_value(components(f.path));
    let path = seq![(encode_utf8("path"@), list)];
    let d = file_entry(f)->Dict_0;
    assert forall|wanted: Seq<char>| #[trigger]
        entry(d, encode_utf8(wanted)) == if wanted == "length"@ {
            Some(Value::Int(f.length))
        } else if wanted == "md5sum"@ && f.md5sum is Some {
            Some(Value::Bytes(encode_utf8(f.md5sum->0)))
        } else if wanted == "path"@ {
            Some(list)
        } else {
            None
        } by {
        entry_in_sum(length + md5sum, path, encode_utf8(wanted));
        entry_in_sum(length, md5sum, encode_utf8(wanted));
        entry_of_int("length"@, Some(f.length), wanted);
        entry_of_text("md5sum"@, f.md5sum, wanted);
        entry_of_one("path"@, list, wanted);
    }
    if f.md5sum is Some {
        text_encodes_back(f.md5sum->0);
    }
    let l = components(f.path);
    assert(l.take(0) =~= Seq::<Seq<char>>::empty());
    path_reads_back(l, 0);
    assert(entry(d, encode_utf8("length"@)) == Some(Value::Int(f.length)));
    assert(entry(d, encode_utf8("path"@)) == Some(list));
    assert(opt_text_field(d, "md5sum"@) == f.md5sum);
}

proof fn files_read_back(files: Seq<FileView>, i: int)
    requires
        0 <= i <= files.len(),
        forall|k: int| 0 <= k < files.len() ==> keeps_its_components(#[trigger] files[k]),
    ensures
        files_from(
            Seq::new(files.len(), |k: int| file_entry(files[k])),
            i,
            files.take(i),
        ) == Ok::<Seq<FileView>, ErrorView>(files),
    decreases files.len() - i,
{
    if i < files.len() {
        written_file_entry_reads_back(files[i]);
        assert(files.take(i).push(files[i]) =~= files.take(i + 1));
        files_read_back(files, i + 1);
    } else {
        assert(files.take(i) =~= files);
    }
}

/// An info is read back from the dictionary that it is written as. What must hold of its files is
/// that their paths are those that their components lead to, as is so where they are made of names
/// (`names_are_the_components`).
pub proof fn written_info_reads_back(i: InfoView)
    requires
        i.mode matches ModeView::Multi { files, .. } ==> forall|k: int|
            0 <= k < files.len() ==> keeps_its_components(#[trigger] files[k]),
        forall|k: int| 0 <= k < i.pieces.len() ==> (#[trigger] i.pieces[k]).len() == 20,
    ensures
        info_of(info_value(i)) == Ok::<InfoView, ErrorView>(i),
{
    reveal_strlit("length");
    reveal_strlit("name");
    reveal_strlit("piece length");
    reveal_strlit("pieces");
    reveal_strlit("private");
    reveal_strlit("files");
    reveal_strlit("md5sum");
    assert("length"@[0] != "pieces"@[0]);
    assert("length"@[0] != "md5sum"@[0]);
    assert("pieces"@[0] != "md5sum"@[0]);
    let d = info_value(i)->Dict_0;
    let mode = mode_entries(i.mode);
    let name = text_entry("name"@, Some(i.mode.name()));
    let length = int_entry("piece length"@, Some(i.piece_length));
    let hashes = Value::Bytes(concatenated(i.pieces));
    let pieces = seq![(encode_utf8("pieces"@), hashes)];
    let private = int_entry("private"@, i.private);
    assert forall|wanted: Seq<char>| #[trigger]
        entry(d, encode_utf8(wanted)) == match entry(mode, encode_utf8(wanted)) {
            Some(v) => Some(v),
            None => if wanted == "name"@ {
                Some(Value::Bytes(encode_utf8(i.mode.name())))
            } else if wanted == "piece length"@ {
                Some(Value::Int(i.piece_length))
            } else if wanted == "pieces"@ {
                Some(hashes)
            } else if wanted == "private"@ && i.private is Some {
                Some(Value::Int(i.private->0))
            } else {
                None
            },
        } by {
        let key = encode_utf8(wanted);
        entry_in_sum(mode + name + length + pieces, private, key);
        entry_in_sum(mode + name + length, pieces, key);
        entry_in_sum(mode + name, length, key);
        entry_in_sum(mode, name, key);
        entry_of_text("name"@, Some(i.mode.name()), wanted);
        entry_of_int("piece length"@, Some(i.piece_length), wanted);
        entry_of_one("pieces"@, hashes, wanted);
        entry_of_int("private"@, i.private, wanted);
    }
    match i.mode {
        ModeView::Single { length, md5sum, .. } => {
            let first = int_entry("length"@, Some(length));
            let second = text_entry("md5sum"@, md5sum);
            assert forall|wanted: Seq<char>| #[trigger]
                entry(mode, encode_utf8(wanted)) == if wanted == "length"@ {
                    Some(Value::Int(length))
                } else if wanted == "md5sum"@ && md5sum is Some {
                    Some(Value::Bytes(encode_utf8(md5sum->0)))
                } else {
                    None
                } by {
                entry_in_sum(first, second, encode_utf8(wanted));
                entry_of_int("length"@, Some(length), wanted);
                entry_of_text("md5sum"@, md5sum, wanted);
            }
            if md5sum is Some {
                text_encodes_back(md5sum->0);
            }
            assert(entry(d, encode_utf8("files"@)) is None);
            assert(entry(d, encode_utf8("length"@)) == Some(Value::Int(length)));
            assert(opt_text_field(d, "md5sum"@) == md5sum);
        },
        ModeView::Multi { files, .. } => {
            let list = Value::List(Seq::new(files.len(), |k: int| file_entry(files[k])));
            assert forall|wanted: Seq<char>| #[trigger]
                entry(mode, encode_utf8(wanted)) == if wanted == "files"@ {
                    Some(list)
                } else {
                    None
                } by {
                entry_of_one("files"@, list, wanted);
            }
            assert(files.take(0) =~= Seq::<FileView>::empty());
            files_read_back(files, 0);
            assert(entry(d, encode_utf8("files"@)) == Some(list));
        },
    }
    text_encodes_back(i.mode.name());
    assert(entry(d, encode_utf8("name"@)) == Some(Value::Bytes(encode_utf8(i.mode.name()))));
    assert(entry(d, encode_utf8("piece length"@)) == Some(Value::Int(i.piece_length)));
    assert(entry(d, encode_utf8("pieces"@)) == Some(hashes));
    assert(opt_int_field(d, "private"@) == i.private);
    concatenation_splits(i.pieces);
    assert(pieces_of(concatenated(i.pieces))->Ok_0 =~= i.pieces);
}

/// The tiers that trackers are written in, one each.
pub open spec fn tiers_of(trackers: Seq<Seq<char>>) -> Seq<Seq<Seq<char>>> {
    Seq::new(trackers.len(), |k: int| seq![trackers[k]])
}

proof fn tiers_read_back(trackers: Seq<Seq<char>>, i: int)
    requires
        0 <= i <= trackers.len(),
    ensures
        tiers_from(
            Seq::new(
                trackers.len(),
                |k: int| Value::List(seq![Value::Bytes(encode_utf8(trackers[k]))]),
            ),
            i,
            tiers_of(trackers).take(i),
        ) == Ok::<Seq<Seq<Seq<char>>>, ErrorView>(tiers_of(trackers)),
    decreases trackers.len() - i,
{
    let tiers = tiers_of(trackers);
    if i < trackers.len() {
        text_encodes_back(trackers[i]);
        reveal_with_fuel(tier_from, 2);
        assert(Seq::<Seq<char>>::empty().push(trackers[i]) =~= tiers[i]);
        assert(tiers.take(i).push(tiers[i]) =~= tiers.take(i + 1));
        tiers_read_back(trackers, i + 1);
    } else {
        assert(tiers.take(i) =~= tiers);
    }
}

/// A torrent file that is made of trackers and an info reads back as these, and its hash is that of
/// the dictionary that the info is written as.
pub proof fn written_torrent_file_reads_back(trackers: Seq<Seq<char>>, i: InfoView)
    requires
        i.mode matches ModeView::Multi { files, .. } ==> forall|k: int|
            0 <= k < files.len() ==> keeps_its_components(#[trigger] files[k]),
        forall|k: int| 0 <= k < i.pieces.len() ==> (#[trigger] i.pieces[k]).len() == 20,
    ensures
        torrent_of(file_value(trackers, i)) == Ok::<TorrentView, ErrorView>(
            TorrentView {
                info: i,
                announce: if trackers.len() > 0 {
                    trackers[0]
                } else {
                    Seq::empty()
                },
                announce_list: Some(tiers_of(trackers)),
                creation_date: None,
                comment: None,
                created_by: None,
                encoding: None,
                info_hash: sha1_digest(encoded(info_value(i))),
            },
        ),
{
    reveal_strlit("announce");
    reveal_strlit("announce-list");
    reveal_strlit("info");
    reveal_strlit("creation date");
    reveal_strlit("comment");
    reveal_strlit("created by");
    reveal_strlit("encoding");
    assert("announce"@[0] != "encoding"@[0]);
    let first: Seq<char> = if trackers.len() > 0 {
        trackers[0]
    } else {
        Seq::empty()
    };
    text_encodes_back(first);
    assert(encode_utf8(Seq::<char>::empty()).len() == 0);
    let d = file_value(trackers, i)->Dict_0;
    let announce = Value::Bytes(encode_utf8(first));
    let list = Seq::new(
        trackers.len(),
        |k: int| Value::List(seq![Value::Bytes(encode_utf8(trackers[k]))]),
    );
    let one = seq![(encode_utf8("announce"@), announce)];
    let two = seq![(encode_utf8("announce-list"@), Value::List(list))];
    let three = seq![(encode_utf8("info"@), info_value(i))];
    assert(encode_utf8(first) =~= d[0].1->Bytes_0);
    assert(d =~= one + two + three);
    assert forall|wanted: Seq<char>| #[trigger]
        entry(d, encode_utf8(wanted)) == if wanted == "announce"@ {
            Some(announce)
        } else if wanted == "announce-list"@ {
            Some(Value::List(list))
        } else if wanted == "info"@ {
            Some(info_value(i))
        } else {
            None
        } by {
        entry_in_sum(one + two, three, encode_utf8(wanted));
        entry_in_sum(one, two, encode_utf8(wanted));
        entry_of_one("announce"@, announce, wanted);
        entry_of_one("announce-list"@, Value::List(list), wanted);
        entry_of_one("info"@, info_value(i), wanted);
    }
    assert(entry(d, encode_utf8("announce"@)) == Some(announce));
    assert(entry(d, encode_utf8("announce-list"@)) == Some(Value::List(list)));
    assert(entry(d, encode_utf8("info"@)) == Some(info_value(i)));
    assert(entry(d, encode_utf8("creation date"@)) is None);
    assert(entry(d, encode_utf8("comment"@)) is None);
    assert(entry(d, encode_utf8("created by"@)) is None);
    assert(entry(d, encode_utf8("encoding"@)) is None);
    written_info_reads_back(i);
    assert(tiers_of(trackers).take(0) =~= Seq::<Seq<Seq<char>>>::empty());
    tiers_read_back(trackers, 0);
}

} // verus!
