//! Catalog entries and the rules that decide what may enter the catalog:
//! the extension allow-list and the public URL path of a file.
use vstd::prelude::*;
use vstd::utf8::encode_utf8;

use crate::text::{chars_of, lower_of, lowercase};

verus! {

/// One cataloged media file.
///
/// Timestamps are nanoseconds since the Unix epoch (negative before it),
/// absent when the filesystem does not report them.
#[derive(Debug, Clone)]
pub struct MediaFile {
    /// The file's base name.
    pub name: String,
    /// Forward-slash path under the public mount, each component
    /// percent-encoded, e.g. `/media/a/b%20c.mp4`.
    pub path: String,
    pub size: u64,
    pub modified: Option<i128>,
    pub created: Option<i128>,
    /// Lowercase, without the leading dot; always on the allow-list.
    pub extension: String,
}

/// What the filesystem reports of one path, symbolic links followed.
#[derive(Debug, Clone, Copy, PartialEq, Eq)]
pub struct EntryMetadata {
    pub is_file: bool,
    pub size: u64,
    pub modified: Option<i128>,
    pub created: Option<i128>,
}

impl MediaFile {
    /// A copy of this entry, equal to it field by field.
    pub fn duplicate(&self) -> (r: MediaFile)
        ensures
            r == *self,
    {
        MediaFile {
            name: self.name.clone(),
            path: self.path.clone(),
            size: self.size,
            modified: self.modified,
            created: self.created,
            extension: self.extension.clone(),
        }
    }
}

/// The extension allow-list: `mp4, webm, mkv, avi, mov`.
pub open spec fn allowed_extension(e: Seq<char>) -> bool {
    ||| e == seq!['m', 'p', '4']
    ||| e == seq!['w', 'e', 'b', 'm']
    ||| e == seq!['m', 'k', 'v']
    ||| e == seq!['a', 'v', 'i']
    ||| e == seq!['m', 'o', 'v']
}

/// Index of the last occurrence of `c` in `s`, or -1.
pub open spec fn last_index_of(s: Seq<char>, c: char) -> int
    decreases s.len(),
{
    if s.len() == 0 {
        -1
    } else if s.last() == c {
        s.len() - 1
    } else {
        last_index_of(s.drop_last(), c)
    }
}

/// A file name's extension: the text after its last dot, where that dot
/// is not the name's first character.
pub open spec fn extension_of(name: Seq<char>) -> Option<Seq<char>> {
    let d = last_index_of(name, '.');
    if d > 0 {
        Some(name.subrange(d + 1, name.len() as int))
    } else {
        None
    }
}

/// The file name has an extension whose lowercase form is allowed.
pub open spec fn is_media_name(name: Seq<char>) -> bool {
    &&& extension_of(name) is Some
    &&& allowed_extension(lower_of(extension_of(name)->0))
}

/// One path component that names an entry of its directory: not empty,
/// not `.` or `..`, and free of separators.
pub open spec fn proper_component(c: Seq<char>) -> bool {
    &&& c.len() > 0
    &&& c != seq!['.']
    &&& c != seq!['.', '.']
    &&& !c.contains('/')
    &&& !c.contains('\\')
}

pub open spec fn proper_components(cs: Seq<Seq<char>>) -> bool {
    forall|i: int| 0 <= i < cs.len() ==> proper_component(#[trigger] cs[i])
}

/// A byte that stands for itself in a URL path: an ASCII letter or digit,
/// or one of `-._~`.
pub open spec fn unreserved(b: u8) -> bool {
    ||| 0x30 <= b <= 0x39
    ||| 0x41 <= b <= 0x5a
    ||| 0x61 <= b <= 0x7a
    ||| b == 0x2d
    ||| b == 0x2e
    ||| b == 0x5f
    ||| b == 0x7e
}

/// Uppercase hexadecimal digit of `d < 16`.
pub open spec fn hex_digit(d: int) -> char {
    if d < 10 {
        (d + 0x30) as char
    } else {
        (d - 10 + 0x41) as char
    }
}

/// One byte in a URL path: itself where unreserved, else `%` and two
/// hexadecimal digits.
pub open spec fn escaped_byte(b: u8) -> Seq<char> {
    if unreserved(b) {
        seq![b as char]
    } else {
        seq!['%', hex_digit(b as int / 16), hex_digit(b as int % 16)]
    }
}

pub open spec fn escaped(bytes: Seq<u8>) -> Seq<char>
    decreases bytes.len(),
{
    if bytes.len() == 0 {
        seq![]
    } else {
        escaped(bytes.drop_last()) + escaped_byte(bytes.last())
    }
}

/// A path component as it stands in a URL: its UTF-8 bytes, percent-encoded.
pub open spec fn segment_text(c: Seq<char>) -> Seq<char> {
    escaped(encode_utf8(c))
}

/// Components, percent-encoded, joined by `/`.
pub open spec fn joined(cs: Seq<Seq<char>>) -> Seq<char>
    decreases cs.len(),
{
    if cs.len() == 0 {
        seq![]
    } else if cs.len() == 1 {
        segment_text(cs[0])
    } else {
        joined(cs.drop_last()) + seq!['/'] + segment_text(cs.last())
    }
}

/// The public mount under which files are served.
pub open spec fn mount() -> Seq<char> {
    seq!['/', 'm', 'e', 'd', 'i', 'a', '/']
}

/// The public URL path of the file at relative components `cs`.
pub open spec fn url_of(cs: Seq<Seq<char>>) -> Seq<char> {
    mount() + joined(cs)
}

/// The file at relative components `cs`, with metadata `m`, belongs in the
/// catalog: a regular file, at a proper relative path, with an allowed
/// extension.
pub open spec fn catalogable(cs: Seq<Seq<char>>, m: EntryMetadata) -> bool {
    &&& cs.len() > 0
    &&& proper_components(cs)
    &&& m.is_file
    &&& is_media_name(cs.last())
}

/// `f` is the catalog entry of the file at `cs` with metadata `m`.
pub open spec fn describes(f: MediaFile, cs: Seq<Seq<char>>, m: EntryMetadata) -> bool {
    &&& f.name@ == cs.last()
    &&& f.path@ == url_of(cs)
    &&& f.size == m.size
    &&& f.modified == m.modified
    &&& f.created == m.created
    &&& f.extension@ == lower_of(extension_of(cs.last())->0)
}

/// Every entry of the catalog has an allowed extension.
pub open spec fn well_formed(f: MediaFile) -> bool {
    allowed_extension(f.extension@)
}

/// Position of the last `.` in `name`, if any.
fn last_dot(name: &Vec<char>) -> (r: Option<usize>)
    ensures
        r is Some <==> last_index_of(name@, '.') >= 0,
        r is Some ==> r->0 == last_index_of(name@, '.'),
{
    let mut i: usize = name.len();
    assert(name@.subrange(0, i as int) =~= name@);
    while i > 0
        invariant
            i <= name.len(),
            last_index_of(name@, '.') == last_index_of(name@.subrange(0, i as int), '.'),
        decreases i,
    {
        let ghost pre = name@.subrange(0, i as int);
        assert(pre.drop_last() =~= name@.subrange(0, i - 1));
        if name[i - 1] == '.' {
            return Some(i - 1);
        }
        i = i - 1;
    }
    None
}

proof fn lemma_last_index_bounds(s: Seq<char>, c: char)
    ensures
        -1 <= last_index_of(s, c) < s.len(),
        last_index_of(s, c) >= 0 ==> s[last_index_of(s, c)] == c,
        forall|k: int| last_index_of(s, c) < k < s.len() ==> s[k] != c,
    decreases s.len(),
{
    if s.len() > 0 && s.last() != c {
        let t = s.drop_last();
        lemma_last_index_bounds(t, c);
        assert forall|k: int| last_index_of(s, c) < k < s.len() implies s[k] != c by {
            if k < t.len() {
                assert(s[k] == t[k]);
            }
        }
    }
}

/// The lowercase extension of `name`, when it is on the allow-list.
pub fn media_extension(name: &str) -> (r: Option<String>)
    ensures
        r is Some <==> is_media_name(name@),
        r is Some ==> r->0@ == lower_of(extension_of(name@)->0),
{
    let cs = chars_of(name);
    proof {
        lemma_last_index_bounds(name@, '.');
    }
    match last_dot(&cs) {
        None => None,
        Some(d) => {
            if d == 0 {
                return None;
            }
            assert(cs@ == name@);
            assert(d < cs.len());
            let ext = name.substring_char(d + 1, cs.len());
            let lower = lowercase(ext);
            if is_allowed(&lower) {
                Some(lower)
            } else {
                None
            }
        },
    }
}

/// Whether `e` is on the extension allow-list.
pub fn is_allowed(e: &str) -> (r: bool)
    ensures
        r == allowed_extension(e@),
{
    let cs = chars_of(e);
    let n = cs.len();
    if n == 3 {
        let a = cs[0];
        let b = cs[1];
        let c = cs[2];
        let r = (a == 'm' && b == 'p' && c == '4') || (a == 'm' && b == 'k' && c == 'v') || (a
            == 'a' && b == 'v' && c == 'i') || (a == 'm' && b == 'o' && c == 'v');
        assert(r == allowed_extension(e@)) by {
            if r {
                assert(e@ =~= seq![a, b, c]);
            }
        }
        r
    } else if n == 4 {
        let r = cs[0] == 'w' && cs[1] == 'e' && cs[2] == 'b' && cs[3] == 'm';
        assert(r == allowed_extension(e@)) by {
            if r {
                assert(e@ =~= seq!['w', 'e', 'b', 'm']);
            }
        }
        r
    } else {
        false
    }
}

/// The texts of a list of strings.
pub open spec fn texts(cs: Seq<String>) -> Seq<Seq<char>> {
    cs.map_values(|c: String| c@)
}

/// Whether the text holds a path separator, `/` or `\\`.
pub fn has_separator(s: &str) -> (r: bool)
    ensures
        r == (s@.contains('/') || s@.contains('\\')),
{
    let cs = chars_of(s);
    let mut i: usize = 0;
    while i < cs.len()
        invariant
            cs@ == s@,
            i <= cs.len(),
            forall|k: int| 0 <= k < i ==> cs@[k] != '/' && cs@[k] != '\\',
        decreases cs.len() - i,
    {
        if cs[i] == '/' || cs[i] == '\\' {
            assert(s@[i as int] == cs[i as int]);
            return true;
        }
        i = i + 1;
    }
    false
}

/// Whether `c` is a proper path component.
pub fn is_proper_component(c: &str) -> (r: bool)
    ensures
        r == proper_component(c@),
{
    let cs = chars_of(c);
    if cs.len() == 0 || has_separator(c) {
        return false;
    }
    let dot = cs.len() == 1 && cs[0] == '.';
    let dots = cs.len() == 2 && cs[0] == '.' && cs[1] == '.';
    assert(dot <==> c@ == seq!['.']) by {
        if dot {
            assert(c@ =~= seq!['.']);
        }
    }
    assert(dots <==> c@ == seq!['.', '.']) by {
        if dots {
            assert(c@ =~= seq!['.', '.']);
        }
    }
    !dot && !dots
}

/// Whether every component is proper.
pub fn all_proper(cs: &Vec<String>) -> (r: bool)
    ensures
        r == proper_components(texts(cs@)),
{
    let mut i: usize = 0;
    while i < cs.len()
        invariant
            i <= cs.len(),
            forall|k: int| 0 <= k < i ==> proper_component(#[trigger] texts(cs@)[k]),
        decreases cs.len() - i,
    {
        if !is_proper_component(&cs[i]) {
            assert(!proper_component(texts(cs@)[i as int]));
            return false;
        }
        i = i + 1;
    }
    true
}

/// Relies on `String::push`: the character is appended.
#[verifier::external_body]
fn push_char(s: &mut String, c: char)
    ensures
        final(s)@ == old(s)@.push(c),
{
    s.push(c)
}

fn hex_char(d: u8) -> (r: char)
    requires
        d < 16,
    ensures
        r == hex_digit(d as int),
{
    if d < 10 {
        (d + 0x30) as char
    } else {
        (d - 10 + 0x41) as char
    }
}

/// Appends the component `c`, percent-encoded.
fn push_segment(out: &mut String, c: &str)
    ensures
        final(out)@ == old(out)@ + segment_text(c@),
{
    let bytes = c.as_bytes();
    let ghost all = encode_utf8(c@);
    assert(bytes@ == all);
    let mut i: usize = 0;
    while i < bytes.len()
        invariant
            bytes@ == all,
            i <= bytes.len(),
            out@ == old(out)@ + escaped(all.subrange(0, i as int)),
        decreases bytes.len() - i,
    {
        let b = bytes[i];
        let ghost before = out@;
        if (0x30 <= b && b <= 0x39) || (0x41 <= b && b <= 0x5a) || (0x61 <= b && b <= 0x7a) || b
            == 0x2d || b == 0x2e || b == 0x5f || b == 0x7e {
            push_char(out, b as char);
        } else {
            push_char(out, '%');
            push_char(out, hex_char(b / 16));
            push_char(out, hex_char(b % 16));
        }
        assert(out@ =~= before + escaped_byte(b));
        assert(all.subrange(0, i + 1).drop_last() =~= all.subrange(0, i as int));
        i = i + 1;
    }
    assert(all.subrange(0, bytes.len() as int) =~= all);
}

/// The public URL path of the file at relative components `cs`.
pub fn url_path(cs: &Vec<String>) -> (r: String)
    ensures
        r@ == url_of(texts(cs@)),
{
    let mut r = String::new();
    proof {
        reveal_strlit("/media/");
    }
    r.append("/media/");
    let mut i: usize = 0;
    while i < cs.len()
        invariant
            i <= cs.len(),
            r@ == mount() + joined(texts(cs@).subrange(0, i as int)),
        decreases cs.len() - i,
    {
        let ghost before = texts(cs@).subrange(0, i as int);
        let ghost after = texts(cs@).subrange(0, i + 1);
        assert(after.drop_last() =~= before);
        let ghost r0 = r@;
        if i > 0 {
            proof {
                reveal_strlit("/");
            }
            r.append("/");
            assert(r@ =~= r0 + seq!['/']);
        }
        let ghost r1 = r@;
        push_segment(&mut r, cs[i].as_str());
        assert(r@ == r1 + segment_text(cs@[i as int]@));
        proof {
            assert(after.last() == cs@[i as int]@);
            if i == 0 {
                assert(after =~= seq![cs@[0]@]);
            } else {
                assert(joined(after) == joined(before) + seq!['/'] + segment_text(cs@[i as int]@));
            }
        }
        assert(r@ =~= mount() + joined(after));
        i = i + 1;
    }
    assert(texts(cs@).subrange(0, cs.len() as int) =~= texts(cs@));
    r
}

/// The catalog entry of the file at relative components `cs` with metadata
/// `m`, or `None` where the file does not belong in the catalog.
pub fn media_file_for(cs: &Vec<String>, m: EntryMetadata) -> (r: Option<MediaFile>)
    ensures
        r is Some <==> catalogable(texts(cs@), m),
        r is Some ==> describes(r->0, texts(cs@), m) && well_formed(r->0),
{
    if cs.len() == 0 || !m.is_file || !all_proper(cs) {
        return None;
    }
    let last = &cs[cs.len() - 1];
    assert(last@ == texts(cs@).last());
    match media_extension(last.as_str()) {
        None => None,
        Some(extension) => {
            let path = url_path(cs);
            Some(
                MediaFile {
                    name: last.clone(),
                    path,
                    size: m.size,
                    modified: m.modified,
                    created: m.created,
                    extension,
                },
            )
        },
    }
}

} // verus!
