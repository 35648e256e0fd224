//! Locations within source code files as line and character offsets, and the
//! file identifiers those files are known by.

use crate::errors::{DocError, ErrorKind};
use crate::strutil;
use vstd::prelude::*;
use vstd::string::*;

verus! {

/// A position within a document.
///
/// On the wire a position is packed into a single unsigned integer; see
/// [`Position::pack`] and [`Position::unpack`] for the encoding.
#[derive(Clone, Copy, Debug, PartialEq, Eq, Structural, PartialOrd, Ord, Hash)]
pub struct Position {
    /// Line position in a document (zero-based).
    pub line: u64,
    /// Character offset on a line in a document (zero-based).
    /// The offset counts UTF-16 code units.
    pub character: u64,
}

/// Lexicographic order on positions: line first, then character.
pub open spec fn pos_le(a: Position, b: Position) -> bool {
    a.line < b.line || (a.line == b.line && a.character <= b.character)
}

/// The single-integer encoding of a position: ten-thousands carry the line,
/// the rest carries the character, clamped to 9999.
pub open spec fn spec_pack(p: Position) -> int {
    p.line * 10_000 + (if p.character < 10_000 {
        p.character as int
    } else {
        9_999
    })
}

/// The inverse of [`spec_pack`] on any packed value.
pub open spec fn spec_unpack(v: u64) -> Position {
    Position { line: (v / 10_000) as u64, character: (v % 10_000) as u64 }
}

impl Position {
    /// Unpack a single integer into a position.
    pub fn unpack(position: u64) -> (r: Self)
        ensures
            r == spec_unpack(position),
    {
        Self { line: position / 10_000, character: position % 10_000 }
    }

    /// Pack a position into a single integer, clamping the character
    /// offset to 9999.
    pub fn pack(&self) -> (r: u64)
        requires
            self.line * 10_000 + 9_999 <= u64::MAX,
        ensures
            r == spec_pack(*self),
    {
        let c = if self.character < 10_000 {
            self.character
        } else {
            9_999
        };
        self.line * 10_000 + c
    }

    /// Whether `self` comes no later than `other`, line first.
    pub fn le(&self, other: &Position) -> (r: bool)
        ensures
            r == pos_le(*self, *other),
    {
        self.line < other.line || (self.line == other.line && self.character <= other.character)
    }
}

/// Packing then unpacking restores any position whose character offset is in
/// range and whose packed value fits the integer.
pub proof fn lemma_position_pack_roundtrip(p: Position)
    requires
        p.character < 10_000,
        p.line * 10_000 + 9_999 <= u64::MAX,
    ensures
        spec_unpack(spec_pack(p) as u64) == p,
{
    let v = spec_pack(p);
    assert(v == p.line * 10_000 + p.character);
    vstd::arithmetic::div_mod::lemma_fundamental_div_mod_converse(
        v,
        10_000,
        p.line as int,
        p.character as int,
    );
}

/// A range of characters between two positions.
///
/// The start never comes after the end; construction enforces it.
#[derive(Clone, Copy, Debug, PartialEq, Eq, Structural, PartialOrd, Ord, Hash)]
pub struct Range {
    start: Position,
    end: Position,
}

impl Range {
    /// The start of the range.
    pub closed spec fn spec_start(&self) -> Position {
        self.start
    }

    /// The end of the range.
    pub closed spec fn spec_end(&self) -> Position {
        self.end
    }

    /// An ordered range. Inputs out of order are ruled out by contract.
    pub fn new(start: Position, end: Position) -> (r: Self)
        requires
            pos_le(start, end),
        ensures
            r.spec_start() == start,
            r.spec_end() == end,
    {
        Self { start, end }
    }

    /// An ordered range from arbitrary positions; yields nothing when the
    /// start comes after the end.
    pub fn try_new(start: Position, end: Position) -> (r: Option<Self>)
        ensures
            r is Some <==> pos_le(start, end),
            r matches Some(rg) ==> rg.spec_start() == start && rg.spec_end() == end,
    {
        if start.le(&end) {
            Some(Self { start, end })
        } else {
            None
        }
    }

    /// Extend this range to cover `other`, but only when `other` starts at or
    /// after this range's end; otherwise this range is returned unchanged,
    /// even when `other` reaches further. The overlap guard is asymmetric on
    /// purpose: it is a defensive no-op, not a true merge.
    pub fn join(&self, other: &Range) -> (r: Range)
        ensures
            pos_le(other.spec_start(), self.spec_end()) && other.spec_start() != self.spec_end()
                ==> r == *self,
            pos_le(self.spec_end(), other.spec_start()) ==> r.spec_start() == self.spec_start()
                && r.spec_end() == other.spec_end(),
    {
        if other.start.le(&self.end) && !(other.start.line == self.end.line
            && other.start.character == self.end.character) {
            return *self;
        }

        Range { start: self.start, end: other.end }
    }

    pub fn start(&self) -> (r: Position)
        ensures
            r == self.spec_start(),
    {
        self.start
    }

    pub fn end(&self) -> (r: Position)
        ensures
            r == self.spec_end(),
    {
        self.end
    }

    pub fn bounds(&self) -> (r: (Position, Position))
        ensures
            r == (self.spec_start(), self.spec_end()),
    {
        (self.start, self.end)
    }

}

/// The scheme that every file identifier must carry.
pub open spec fn file_scheme() -> Seq<char> {
    seq!['f', 'i', 'l', 'e']
}

/// A well-formed file path: rooted, long enough to name a file, and not
/// ending in a parent-directory marker.
pub open spec fn uri_wf(path: Seq<char>) -> bool {
    &&& path.len() >= 2
    &&& path[0] == '/'
    &&& !(path[path.len() - 1] == '.' && path[path.len() - 2] == '.')
}

/// The last index of `c` in `s`, or -1 when `c` does not occur.
pub open spec fn last_index_of(s: Seq<char>, c: char) -> int
    decreases s.len(),
{
    if s.len() == 0 {
        -1
    } else if s.last() == c {
        s.len() - 1
    } else {
        last_index_of(s.drop_last(), c)
    }
}

pub proof fn lemma_last_index_of_at(s: Seq<char>, c: char, j: int)
    requires
        0 <= j < s.len(),
        s[j] == c,
        forall|k: int| j < k < s.len() ==> s[k] != c,
    ensures
        last_index_of(s, c) == j,
    decreases s.len(),
{
    if j < s.len() - 1 {
        lemma_last_index_of_at(s.drop_last(), c, j);
    }
}

pub proof fn lemma_last_index_of_none(s: Seq<char>, c: char)
    requires
        forall|k: int| 0 <= k < s.len() ==> s[k] != c,
    ensures
        last_index_of(s, c) == -1,
    decreases s.len(),
{
    if s.len() > 0 {
        lemma_last_index_of_none(s.drop_last(), c);
    }
}

/// The last path segment: everything after the last slash.
pub open spec fn file_name_of(path: Seq<char>) -> Seq<char> {
    path.skip(last_index_of(path, '/') + 1)
}

/// The file name split at its last dot: the part before it and the part
/// after it. A name without a dot keeps its whole text as the stem and has
/// an empty extension.
pub open spec fn split_at_last_dot(name: Seq<char>) -> (Seq<char>, Seq<char>) {
    let j = last_index_of(name, '.');
    if j < 0 {
        (name, Seq::<char>::empty())
    } else {
        (name.take(j), name.skip(j + 1))
    }
}

/// The file stem: the file name up to its last dot.
pub open spec fn file_stem_of(path: Seq<char>) -> Seq<char> {
    split_at_last_dot(file_name_of(path)).0
}

/// The number of path segments, not counting the file name itself; zero for
/// a path without any separator.
pub open spec fn depth_of(path: Seq<char>) -> int {
    if strutil::seq_count(path, '/') >= 1 {
        strutil::seq_count(path, '/') - 1
    } else {
        0
    }
}

/// The name of the directory holding the file: the segment just before the
/// file name, when the path has one.
pub open spec fn dirname_of(path: Seq<char>) -> Option<Seq<char>> {
    let j = last_index_of(path, '/');
    if j <= 0 {
        None
    } else {
        Some(file_name_of(path.take(j)))
    }
}

/// How much deeper `path` sits than `root`, clamped at zero.
pub open spec fn rel_depth_of(path: Seq<char>, root: Seq<char>) -> int {
    if depth_of(path) >= depth_of(root) {
        depth_of(path) - depth_of(root)
    } else {
        0
    }
}

/// The deterministic order files are visited in: ascending by path depth,
/// then by file name in code-point order.
pub open spec fn uri_key_le(a: Seq<char>, b: Seq<char>) -> bool {
    depth_of(a) < depth_of(b) || (depth_of(a) == depth_of(b) && strutil::seq_char_le(
        file_name_of(a),
        file_name_of(b),
    ))
}

/// What `url::Url::parse` yields for a given input: the scheme and the
/// serialized path of the parsed URL, or nothing when parsing fails.
pub uninterp spec fn url_parse_of(s: Seq<char>) -> Option<(Seq<char>, Seq<char>)>;

/// Relies on `url::Url::parse`: whether a string parses as a URL, and the
/// scheme and serialized path of the URL it parses to, are functions of the
/// string alone.
#[verifier::external_body]
fn parse_url_parts(input: &str) -> (r: Option<(String, String)>)
    ensures
        r matches Some(p) ==> url_parse_of(input@) == Some((p.0@, p.1@)),
        r is None ==> url_parse_of(input@) is None,
{
    match url::Url::parse(input) {
        Ok(u) => Some((u.scheme().to_string(), u.path().to_string())),
        Err(_) => None,
    }
}

/// An absolute `file`-scheme resource identifier, held as its rooted path.
#[derive(Debug, Clone, Hash)]
pub struct FileUri {
    path: String,
}

impl View for FileUri {
    type V = Seq<char>;

    closed spec fn view(&self) -> Seq<char> {
        self.path@
    }
}

impl DeepView for FileUri {
    type V = Seq<char>;

    open spec fn deep_view(&self) -> Seq<char> {
        self.view()
    }
}

impl PartialEq for FileUri {
    fn eq(&self, other: &FileUri) -> (r: bool)
        ensures
            r == (self@ == other@),
    {
        self.path == other.path
    }
}

impl vstd::std_specs::cmp::PartialEqSpecImpl for FileUri {
    open spec fn obeys_eq_spec() -> bool {
        true
    }

    open spec fn eq_spec(&self, other: &FileUri) -> bool {
        self@ == other@
    }
}

impl FileUri {
    /// Whether this identifier names a file inside some root.
    pub open spec fn wf(&self) -> bool {
        uri_wf(self@)
    }

    /// Parse a `file`-scheme URI. Rejects unparsable input, any scheme other
    /// than `file`, an empty or unrooted path, and a path too short to name
    /// a file or ending in a parent-directory marker.
    pub fn parse(input: &str) -> (r: Result<FileUri, DocError>)
        ensures
            match url_parse_of(input@) {
                None => r matches Err(e) && e@.kind == ErrorKind::UriNotParsable,
                Some(parts) => {
                    let (scheme, path) = parts;
                    if scheme != file_scheme() {
                        r matches Err(e) && e@.kind == ErrorKind::UriMissingFileScheme
                    } else if path.len() == 0 {
                        r matches Err(e) && e@.kind == ErrorKind::UriMissingPath
                    } else if !uri_wf(path) {
                        r matches Err(e) && e@.kind == ErrorKind::UriMissingFileName
                    } else {
                        r matches Ok(u) && u@ == path
                    }
                },
            },
            r matches Ok(u) ==> u.wf(),
    {
        proof {
            reveal_strlit("file");
            assert("file"@ =~= file_scheme());
        }
        let parts = match parse_url_parts(input) {
            Some(p) => p,
            None => {
                return Err(DocError::unnamed(ErrorKind::UriNotParsable));
            },
        };
        let (scheme, path) = parts;
        if !strutil::str_eq(scheme.as_str(), "file") {
            return Err(DocError::unnamed(ErrorKind::UriMissingFileScheme));
        }
        let n = strutil::str_len(path.as_str());
        if n == 0 {
            return Err(DocError::unnamed(ErrorKind::UriMissingPath));
        }
        if n == 1 || path.as_str().get_char(0) != '/' || (path.as_str().get_char(n - 2) == '.'
            && path.as_str().get_char(n - 1) == '.') {
            return Err(DocError::unnamed(ErrorKind::UriMissingFileName));
        }
        Ok(FileUri { path })
    }

    /// The rooted path this identifier wraps.
    pub fn as_path(&self) -> (r: &str)
        ensures
            r@ == self@,
    {
        self.path.as_str()
    }

    /// A path-level copy of this identifier.
    pub fn duplicate(&self) -> (r: FileUri)
        ensures
            r@ == self@,
    {
        FileUri { path: self.path.clone() }
    }

    /// Whether this identifier's path starts with `base`'s path, textually.
    pub fn starts_with_path(&self, base: &FileUri) -> (r: bool)
        ensures
            r == base@.is_prefix_of(self@),
    {
        strutil::str_starts_with(self.path.as_str(), base.path.as_str())
    }

    /// This identifier with `base`'s path removed from the front; an error
    /// when `base` is not a prefix.
    pub fn strip_path_prefix(&self, base: &FileUri) -> (r: Result<FileUri, DocError>)
        ensures
            base@.is_prefix_of(self@) ==> (r matches Ok(u) && u@ == self@.skip(
                base@.len() as int,
            )),
            !base@.is_prefix_of(self@) ==> (r matches Err(e) && e@.kind
                == ErrorKind::UriNotAPrefix),
    {
        if !self.starts_with_path(base) {
            return Err(DocError::unnamed(ErrorKind::UriNotAPrefix));
        }
        let from = strutil::str_len(base.path.as_str());
        let to = strutil::str_len(self.path.as_str());
        Ok(FileUri { path: strutil::substring(self.path.as_str(), from, to) })
    }

    /// The last path segment.
    pub fn file_name(&self) -> (r: String)
        ensures
            r@ == file_name_of(self@),
    {
        match strutil::rfind_char(self.path.as_str(), '/') {
            Some(j) => {
                proof {
                    lemma_last_index_of_at(self@, '/', j as int);
                }
                let n = strutil::str_len(self.path.as_str());
                strutil::substring(self.path.as_str(), j + 1, n)
            },
            None => {
                proof {
                    lemma_last_index_of_none(self@, '/');
                    assert(self@.skip(0) =~= self@);
                }
                self.path.clone()
            },
        }
    }

    /// The file name split at its last dot into stem and extension.
    pub fn split_file_at_dot(&self) -> (r: (String, String))
        ensures
            (r.0@, r.1@) == split_at_last_dot(file_name_of(self@)),
    {
        let name = self.file_name();
        let n = strutil::str_len(name.as_str());
        match strutil::rfind_char(name.as_str(), '.') {
            Some(j) => {
                proof {
                    lemma_last_index_of_at(name@, '.', j as int);
                }
                let stem = strutil::substring(name.as_str(), 0, j);
                let ext = strutil::substring(name.as_str(), j + 1, n);
                proof {
                    assert(name@.subrange(0, j as int) =~= name@.take(j as int));
                }
                (stem, ext)
            },
            None => {
                proof {
                    lemma_last_index_of_none(name@, '.');
                }
                (name, String::new())
            },
        }
    }

    /// The file name up to its last dot.
    pub fn file_stem(&self) -> (r: String)
        ensures
            r@ == file_stem_of(self@),
    {
        let (stem, _) = self.split_file_at_dot();
        stem
    }

    /// The file name past its last dot, or empty without one.
    pub fn extension(&self) -> (r: String)
        ensures
            r@ == split_at_last_dot(file_name_of(self@)).1,
    {
        let (_, ext) = self.split_file_at_dot();
        ext
    }

    /// The number of path segments, not counting the file name itself.
    pub fn depth(&self) -> (r: usize)
        ensures
            r == depth_of(self@),
    {
        proof {
            strutil::lemma_seq_count_le_len(self@, '/');
        }
        let c = strutil::count_char(self.path.as_str(), '/');
        if c >= 1 {
            c - 1
        } else {
            0
        }
    }

    /// How much deeper this file sits than `root`, clamped at zero.
    pub fn relative_depth(&self, root: &FileUri) -> (r: usize)
        ensures
            r == rel_depth_of(self@, root@),
    {
        let d = self.depth();
        let rd = root.depth();
        if d >= rd {
            d - rd
        } else {
            0
        }
    }

    /// Whether this file comes no later than `other` in the build order:
    /// by path depth, then by file name.
    pub fn key_le(&self, other: &FileUri) -> (r: bool)
        ensures
            r == uri_key_le(self@, other@),
    {
        let da = self.depth();
        let db = other.depth();
        if da < db {
            true
        } else if da > db {
            false
        } else {
            let na = self.file_name();
            let nb = other.file_name();
            strutil::str_le(na.as_str(), nb.as_str())
        }
    }

    /// The name of the directory holding the file, when the path has one.
    pub fn dirname(&self) -> (r: Option<String>)
        ensures
            match r {
                Some(d) => dirname_of(self@) matches Some(dv) && d@ == dv,
                None => dirname_of(self@) is None,
            },
    {
        let j = match strutil::rfind_char(self.path.as_str(), '/') {
            Some(j) => {
                proof {
                    lemma_last_index_of_at(self@, '/', j as int);
                }
                j
            },
            None => {
                proof {
                    lemma_last_index_of_none(self@, '/');
                }
                return None;
            },
        };
        if j == 0 {
            return None;
        }
        let parent = strutil::substring(self.path.as_str(), 0, j);
        proof {
            assert(self@.subrange(0, j as int) =~= self@.take(j as int));
        }
        match strutil::rfind_char(parent.as_str(), '/') {
            Some(k) => {
                proof {
                    lemma_last_index_of_at(parent@, '/', k as int);
                }
                Some(strutil::substring(parent.as_str(), k + 1, j))
            },
            None => {
                proof {
                    lemma_last_index_of_none(parent@, '/');
                    assert(parent@.skip(0) =~= parent@);
                }
                Some(parent)
            },
        }
    }
}

/// A location specifies a source file and a range of characters within it.
#[derive(Debug, Clone, PartialEq)]
pub struct Location {
    pub file: FileUri,
    pub range: Range,
}

/// Mathematical model of a `Location`.
pub ghost struct LocationView {
    pub file: Seq<char>,
    pub range: Range,
}

impl View for Location {
    type V = LocationView;

    open spec fn view(&self) -> LocationView {
        LocationView { file: self.file@, range: self.range }
    }
}

impl DeepView for Location {
    type V = LocationView;

    open spec fn deep_view(&self) -> LocationView {
        self.view()
    }
}

impl Location {
    /// A field-level copy of this location.
    pub fn duplicate(&self) -> (r: Location)
        ensures
            r@ == self@,
    {
        Location { file: self.file.duplicate(), range: self.range }
    }
}

/// A span of text from within a file.
#[derive(Debug, Clone, PartialEq)]
pub struct Span {
    pub text: String,
    pub location: Location,
}

/// Mathematical model of a `Span`.
pub ghost struct SpanView {
    pub text: Seq<char>,
    pub location: LocationView,
}

impl View for Span {
    type V = SpanView;

    open spec fn view(&self) -> SpanView {
        SpanView { text: self.text@, location: self.location@ }
    }
}

impl Span {
    /// A span with no text at the given location.
    pub fn empty(location: Location) -> (r: Self)
        ensures
            r@.text == Seq::<char>::empty(),
            r@.location == location@,
    {
        Self { text: String::new(), location }
    }

    pub fn is_empty(&self) -> (r: bool)
        ensures
            r == (self@.text.len() == 0),
    {
        self.text.as_str().is_empty()
    }
}

/// The UTF-16 code units of one character: one unit below the supplementary
/// planes, a surrogate pair above them.
pub open spec fn utf16_units(c: char) -> Seq<u16> {
    if (c as u32) < 0x10000 {
        seq![(c as u32) as u16]
    } else {
        let v = (c as u32) - 0x10000;
        seq![(0xD800 + v / 0x400) as u16, (0xDC00 + v % 0x400) as u16]
    }
}

/// The UTF-16 encoding of a character sequence.
pub open spec fn encode_utf16(s: Seq<char>) -> Seq<u16>
    decreases s.len(),
{
    if s.len() == 0 {
        Seq::<u16>::empty()
    } else {
        encode_utf16(s.drop_last()) + utf16_units(s.last())
    }
}

/// Whether a code unit is a high (leading) surrogate.
pub open spec fn is_high_surrogate(u: u16) -> bool {
    0xD800 <= u < 0xDC00
}

/// Whether a code unit is a low (trailing) surrogate.
pub open spec fn is_low_surrogate(u: u16) -> bool {
    0xDC00 <= u < 0xE000
}

/// The character standing in for undecodable input.
pub open spec fn replacement_char() -> char {
    '\u{FFFD}'
}

/// The characters a UTF-16 code unit sequence decodes to: surrogate pairs
/// combine, and any unpaired surrogate becomes the replacement character.
pub open spec fn decode_utf16_lossy(u: Seq<u16>) -> Seq<char>
    decreases u.len(),
{
    if u.len() == 0 {
        Seq::<char>::empty()
    } else if is_high_surrogate(u[0]) && u.len() >= 2 && is_low_surrogate(u[1]) {
        seq![
            (0x10000 + (u[0] - 0xD800) * 0x400 + (u[1] - 0xDC00)) as u32 as char,
        ] + decode_utf16_lossy(u.skip(2))
    } else if is_high_surrogate(u[0]) || is_low_surrogate(u[0]) {
        seq![replacement_char()] + decode_utf16_lossy(u.skip(1))
    } else {
        seq![(u[0] as u32) as char] + decode_utf16_lossy(u.skip(1))
    }
}

/// The lines of a text: split at newlines, each line stripped of a carriage
/// return standing right before its newline; a final line ending yields no
/// extra empty line.
pub open spec fn spec_lines(s: Seq<char>) -> Seq<Seq<char>>
    decreases s.len(),
{
    if s.len() == 0 {
        Seq::<Seq<char>>::empty()
    } else {
        let j = strutil::first_index_of(s, '\n');
        if j < 0 || j >= s.len() {
            seq![s]
        } else {
            let line = if j > 0 && s[j - 1] == '\r' {
                s.take(j - 1)
            } else {
                s.take(j)
            };
            seq![line] + spec_lines(s.skip(j + 1))
        }
    }
}

/// What reading one line of a range yields: the start line is cut from the
/// range's start offset to its end (in UTF-16 units, decoded back
/// leniently), a distinct end line is cut from its beginning to the range's
/// end offset, and every line between is taken whole.
pub open spec fn line_slice(lines: Seq<Seq<char>>, i: int, start: Position, end: Position) -> Seq<
    char,
> {
    if i == start.line {
        decode_utf16_lossy(encode_utf16(lines[i]).skip(start.character as int))
    } else if i == end.line {
        decode_utf16_lossy(encode_utf16(lines[i]).take(end.character as int))
    } else {
        lines[i]
    }
}

/// The first `n` lines read: those within the range contribute their slice,
/// joined with nothing in between.
pub open spec fn spec_read_lines(
    lines: Seq<Seq<char>>,
    start: Position,
    end: Position,
    n: int,
) -> Seq<char>
    decreases n,
{
    if n <= 0 {
        Seq::<char>::empty()
    } else {
        let rest = spec_read_lines(lines, start, end, n - 1);
        if start.line <= n - 1 <= end.line && n - 1 < lines.len() {
            rest + line_slice(lines, n - 1, start, end)
        } else {
            rest
        }
    }
}

/// What reading a range from a text yields.
pub open spec fn spec_read_range(text: Seq<char>, range: Range) -> Seq<char> {
    let lines = spec_lines(text);
    spec_read_lines(lines, range.spec_start(), range.spec_end(), lines.len() as int)
}

/// The cuts a range makes stay within their lines' UTF-16 lengths, and the
/// offsets fit the machine.
pub open spec fn read_range_safe(text: Seq<char>, range: Range) -> bool {
    let lines = spec_lines(text);
    let start = range.spec_start();
    let end = range.spec_end();
    &&& start.character <= usize::MAX
    &&& end.character <= usize::MAX
    &&& (start.line < lines.len() ==> start.character <= encode_utf16(
        lines[start.line as int],
    ).len())
    &&& (end.line != start.line && start.line <= end.line && end.line < lines.len()
        ==> end.character <= encode_utf16(lines[end.line as int]).len())
}

/// Relies on `char::from_u32`: yields the character with the given code
/// point for every valid Unicode scalar value, and nothing otherwise.
#[verifier::external_body]
fn char_from_u32(v: u32) -> (r: Option<char>)
    ensures
        v < 0xD800 || (0xE000 <= v && v <= 0x10FFFF) ==> r == Some(v as char),
        r matches Some(c) ==> c as u32 == v,
{
    char::from_u32(v)
}

/// Relies on `String::push`: appends exactly the given character.
#[verifier::external_body]
fn push_char(s: &mut String, c: char)
    ensures
        final(s)@ == old(s)@.push(c),
{
    s.push(c);
}

/// The UTF-16 code units of a string; see [`encode_utf16`].
fn encode_utf16_vec(s: &str) -> (r: Vec<u16>)
    ensures
        r@ == encode_utf16(s@),
{
    let n = strutil::str_len(s);
    let mut out: Vec<u16> = Vec::new();
    let mut i: usize = 0;
    proof {
        assert(out@ =~= encode_utf16(s@.take(0)));
    }
    while i < n
        invariant
            n == s@.len(),
            i <= n,
            out@ == encode_utf16(s@.take(i as int)),
        decreases n - i,
    {
        let ghost pre = out@;
        let c = s.get_char(i);
        let cv = c as u32;
        if cv < 0x10000 {
            out.push(cv as u16);
        } else {
            let v = cv - 0x10000;
            out.push((0xD800 + v / 0x400) as u16);
            out.push((0xDC00 + v % 0x400) as u16);
        }
        proof {
            assert(s@.take(i + 1).drop_last() =~= s@.take(i as int));
            assert(s@.take(i + 1).last() == s@[i as int]);
            assert(out@ =~= pre + utf16_units(s@[i as int]));
        }
        i += 1;
    }
    proof {
        assert(s@.take(n as int) =~= s@);
    }
    out
}

/// The characters that the given span of code units decodes to; see
/// [`decode_utf16_lossy`].
fn decode_utf16_range(units: &Vec<u16>, from: usize, to: usize) -> (r: String)
    requires
        from <= to <= units@.len(),
    ensures
        r@ == decode_utf16_lossy(units@.subrange(from as int, to as int)),
{
    let ghost whole = units@.subrange(from as int, to as int);
    let mut out = String::new();
    let mut i: usize = from;
    proof {
        assert(whole.skip(0) =~= whole);
        assert(out@ + decode_utf16_lossy(whole) =~= decode_utf16_lossy(whole));
    }
    while i < to
        invariant
            from <= i <= to <= units@.len(),
            whole == units@.subrange(from as int, to as int),
            out@ + decode_utf16_lossy(whole.skip(i - from)) == decode_utf16_lossy(whole),
        decreases to - i,
    {
        let ghost cur = whole.skip(i - from);
        let ghost preout = out@;
        let u = units[i];
        proof {
            assert(cur[0] == units@[i as int]);
        }
        let high = 0xD800 <= u && u < 0xDC00;
        let low = 0xDC00 <= u && u < 0xE000;
        if high && i + 1 < to && 0xDC00 <= units[i + 1] && units[i + 1] < 0xE000 {
            proof {
                assert(cur[1] == units@[i + 1]);
            }
            let lo = units[i + 1];
            let combined: u32 = 0x10000 + (u as u32 - 0xD800) * 0x400 + (lo as u32 - 0xDC00);
            proof {
                assert(0x10000 <= combined <= 0x10FFFF);
            }
            let c = match char_from_u32(combined) {
                Some(c) => c,
                None => unreached(),
            };
            push_char(&mut out, c);
            proof {
                assert(cur.skip(2) =~= whole.skip(i + 2 - from));
                assert(out@ =~= preout.push(c));
                assert(combined == (cur[0] - 0xD800) * 0x400 + (cur[1] - 0xDC00) + 0x10000);
                assert(c == (0x10000 + (cur[0] - 0xD800) * 0x400 + (cur[1] - 0xDC00)) as u32
                    as char);
                assert(decode_utf16_lossy(cur) == seq![c] + decode_utf16_lossy(cur.skip(2)));
                assert(out@ + decode_utf16_lossy(whole.skip(i + 2 - from)) =~= preout
                    + decode_utf16_lossy(cur));
            }
            i += 2;
        } else if high || low {
            push_char(&mut out, '\u{FFFD}');
            proof {
                assert(cur.skip(1) =~= whole.skip(i + 1 - from));
                assert(out@ =~= preout.push(replacement_char()));
                assert(decode_utf16_lossy(cur) == seq![replacement_char()]
                    + decode_utf16_lossy(cur.skip(1)));
                assert(out@ + decode_utf16_lossy(whole.skip(i + 1 - from)) =~= preout
                    + decode_utf16_lossy(cur));
            }
            i += 1;
        } else {
            let c = match char_from_u32(u as u32) {
                Some(c) => c,
                None => unreached(),
            };
            push_char(&mut out, c);
            proof {
                assert(cur.skip(1) =~= whole.skip(i + 1 - from));
                assert(out@ =~= preout.push(c));
                assert(c == (cur[0] as u32) as char);
                assert(decode_utf16_lossy(cur) == seq![c] + decode_utf16_lossy(cur.skip(1)));
                assert(out@ + decode_utf16_lossy(whole.skip(i + 1 - from)) =~= preout
                    + decode_utf16_lossy(cur));
            }
            i += 1;
        }
    }
    proof {
        assert(whole.skip(to - from) =~= Seq::<u16>::empty());
        assert(out@ =~= out@ + decode_utf16_lossy(whole.skip(to - from)));
    }
    out
}

/// The lines of a text; see [`spec_lines`].
fn split_lines(text: &str) -> (r: Vec<String>)
    ensures
        r.deep_view() == spec_lines(text@),
    decreases text@.len(),
{
    let n = strutil::str_len(text);
    if n == 0 {
        let out: Vec<String> = Vec::new();
        proof {
            assert(out.deep_view() =~= spec_lines(text@));
        }
        return out;
    }
    match strutil::find_char(text, '\n') {
        None => {
            proof {
                strutil::lemma_first_index_of_none(text@, '\n');
            }
            let mut out: Vec<String> = Vec::new();
            out.push(text.to_owned());
            proof {
                assert(out.deep_view() =~= seq![text@]);
            }
            out
        },
        Some(j) => {
            proof {
                strutil::lemma_first_index_of_at(text@, '\n', j as int);
            }
            let line = if j > 0 && text.get_char(j - 1) == '\r' {
                strutil::substring(text, 0, j - 1)
            } else {
                strutil::substring(text, 0, j)
            };
            let rest = strutil::substring(text, j + 1, n);
            proof {
                assert(rest@ =~= text@.skip(j + 1));
            }
            let mut out = split_lines(rest.as_str());
            let ghost tailv = out.deep_view();
            out.insert(0, line);
            proof {
                assert(line@ =~= if j > 0 && text@[j - 1] == '\r' {
                    text@.take(j - 1)
                } else {
                    text@.take(j as int)
                });
                assert(out.deep_view() =~= seq![line@] + tailv);
            }
            out
        },
    }
}

/// Read a range from the given text: the lines the range spans, the first
/// cut from the range's start offset, a distinct last line cut to the
/// range's end offset, offsets counted in UTF-16 units and cuts decoded
/// leniently; see [`spec_read_range`].
pub fn read_range(text: &str, range: &Range) -> (r: String)
    requires
        read_range_safe(text@, *range),
    ensures
        r@ == spec_read_range(text@, *range),
{
    let (start, end) = range.bounds();
    let lines = split_lines(text);
    let ghost linesv = lines.deep_view();
    let mut out = String::new();
    let mut i: usize = 0;
    proof {
        assert(out@ =~= spec_read_lines(linesv, start, end, 0));
    }
    while i < lines.len()
        invariant
            linesv == lines.deep_view(),
            linesv == spec_lines(text@),
            read_range_safe(text@, *range),
            start == range.spec_start(),
            end == range.spec_end(),
            i <= lines@.len(),
            out@ == spec_read_lines(linesv, start, end, i as int),
        decreases lines.len() - i,
    {
        let ghost preout = out@;
        let line = &lines[i];
        proof {
            assert(line@ == linesv[i as int]);
        }
        if start.line <= i as u64 && i as u64 <= end.line {
            if i as u64 == start.line {
                let units = encode_utf16_vec(line.as_str());
                let sc = start.character as usize;
                let piece = decode_utf16_range(&units, sc, units.len());
                proof {
                    assert(units@.subrange(sc as int, units@.len() as int) =~= units@.skip(
                        sc as int,
                    ));
                }
                out.append(piece.as_str());
            } else if i as u64 == end.line {
                let units = encode_utf16_vec(line.as_str());
                let ec = end.character as usize;
                let piece = decode_utf16_range(&units, 0, ec);
                proof {
                    assert(units@.subrange(0, ec as int) =~= units@.take(ec as int));
                }
                out.append(piece.as_str());
            } else {
                out.append(line.as_str());
            }
            proof {
                assert(out@ =~= preout + line_slice(linesv, i as int, start, end));
            }
        }
        i += 1;
    }
    proof {
        assert(lines@.len() == linesv.len());
    }
    out
}

} // verus!
