use vstd::prelude::*;
use crate::text::str_chars;

verus! {

broadcast use vstd::string::group_string_axioms;

/// The kind of document, which decides how it is highlighted.
#[derive(Copy, Clone, Debug, PartialEq, Eq, Structural)]
pub enum FileType {
    Rust,
    Text,
    MarkDown,
}

impl Default for FileType {
    /// Plain text.
    fn default() -> (res: FileType)
        ensures
            res == FileType::Text,
    {
        FileType::Text
    }
}

/// The name under which a file type is shown.
pub open spec fn file_type_name(t: FileType) -> Seq<char> {
    match t {
        FileType::Rust => seq!['R', 'u', 's', 't'],
        FileType::Text => seq!['T', 'e', 'x', 't'],
        FileType::MarkDown => seq!['M', 'a', 'r', 'k', 'd', 'o', 'w', 'n'],
    }
}

impl FileType {
    /// The name under which the file type is shown.
    pub fn to_text(&self) -> (res: String)
        ensures
            res@ == file_type_name(*self),
    {
        let s = match self {
            FileType::Rust => "Rust",
            FileType::Text => "Text",
            FileType::MarkDown => "Markdown",
        };
        proof {
            reveal_strlit("Rust");
            reveal_strlit("Text");
            reveal_strlit("Markdown");
        }
        s.to_string()
    }
}

/// The index of the last `c` in `s`, if any.
pub open spec fn last_index_of(s: Seq<char>, c: char) -> Option<int> {
    if exists|i: int| 0 <= i < s.len() && s[i] == c {
        Some(choose|i: int| is_last_index_of(s, c, i))
    } else {
        None
    }
}

/// `i` is the position of the last `c` in `s`.
pub open spec fn is_last_index_of(s: Seq<char>, c: char, i: int) -> bool {
    &&& 0 <= i < s.len()
    &&& s[i] == c
    &&& forall|j: int| i < j < s.len() ==> s[j] != c
}

/// The last component of a path: what follows its last `/`.
pub open spec fn file_name_of(path: Seq<char>) -> Seq<char> {
    match last_index_of(path, '/') {
        Some(i) => path.skip(i + 1),
        None => path,
    }
}

/// The extension of a file name: what follows its last `.`, when that dot is
/// not the name's first character.
pub open spec fn extension_of(name: Seq<char>) -> Option<Seq<char>> {
    match last_index_of(name, '.') {
        Some(i) => if i > 0 { Some(name.skip(i + 1)) } else { None },
        None => None,
    }
}

/// The ASCII lower-case form of `c`.
pub open spec fn ascii_lower(c: char) -> char {
    if 'A' <= c <= 'Z' { ((c as u32) + 32) as char } else { c }
}

/// `a` and `b` are equal when ASCII letters are compared without case.
pub open spec fn eq_ignore_ascii_case(a: Seq<char>, b: Seq<char>) -> bool {
    a.len() == b.len() && forall|i: int| 0 <= i < a.len() ==> ascii_lower(a[i]) == ascii_lower(b[i])
}

/// The file type that a path names by its extension: `rs` for Rust, `md` for
/// Markdown, plain text otherwise.
pub open spec fn file_type_of(path: Seq<char>) -> FileType {
    match extension_of(file_name_of(path)) {
        Some(e) => if eq_ignore_ascii_case(e, seq!['r', 's']) {
            FileType::Rust
        } else if eq_ignore_ascii_case(e, seq!['m', 'd']) {
            FileType::MarkDown
        } else {
            FileType::Text
        },
        None => FileType::Text,
    }
}

/// The name shown for a document with the given path.
pub open spec fn display_name(path: Option<Seq<char>>) -> Seq<char> {
    match path {
        Some(p) => if file_name_of(p).len() > 0 {
            file_name_of(p)
        } else {
            no_name()
        },
        None => no_name(),
    }
}

/// The name shown for a document that has no file.
pub open spec fn no_name() -> Seq<char> {
    seq!['[', 'N', 'o', ' ', 'N', 'a', 'm', 'e', ']']
}

/// Where a document is stored and what kind it is.
#[derive(Debug)]
pub struct FileInfo {
    pub path: Option<String>,
    pub file_type: FileType,
}

/// The index of the last `c` in `s`, if any.
fn last_index(s: &Vec<char>, c: char) -> (res: Option<usize>)
    ensures
        res matches Some(i) ==> last_index_of(s@, c) == Some(i as int) && i < s.len(),
        res is None ==> last_index_of(s@, c) is None,
{
    let mut k = s.len();
    while k > 0
        invariant
            k <= s@.len(),
            forall|j: int| k <= j < s@.len() ==> s@[j] != c,
        decreases k,
    {
        k = k - 1;
        if s[k] == c {
            proof {
                assert(is_last_index_of(s@, c, k as int));
                let w = choose|i: int| is_last_index_of(s@, c, i);
                assert(is_last_index_of(s@, c, w));
                if w < k {
                    assert(s@[k as int] != c);
                } else if w > k {
                    assert(s@[w] != c);
                }
            }
            return Some(k);
        }
    }
    None
}

/// The characters of `s` from `from` on.
fn skip_chars(s: &Vec<char>, from: usize) -> (res: Vec<char>)
    requires
        from <= s@.len(),
    ensures
        res@ == s@.skip(from as int),
{
    let mut res: Vec<char> = Vec::new();
    let mut i = from;
    while i < s.len()
        invariant
            from <= i <= s@.len(),
            res@ == s@.subrange(from as int, i as int),
        decreases s@.len() - i,
    {
        res.push(s[i]);
        proof {
            assert(s@.subrange(from as int, i + 1) =~= s@.subrange(from as int, i as int).push(s@[i as int]));
        }
        i = i + 1;
    }
    res
}

/// Whether `e` is the two letters `a` then `b`, each in either case.
fn is_extension(e: &Vec<char>, a: char, a_upper: char, b: char, b_upper: char) -> (res: bool)
    requires
        'a' <= a <= 'z',
        'a' <= b <= 'z',
        a_upper as u32 + 32 == a as u32,
        b_upper as u32 + 32 == b as u32,
    ensures
        res == eq_ignore_ascii_case(e@, seq![a, b]),
{
    if e.len() != 2 {
        return false;
    }
    let r = (e[0] == a || e[0] == a_upper) && (e[1] == b || e[1] == b_upper);
    proof {
        assert(ascii_lower(a_upper) == a) by {
            vstd::utf8::char_u32_cast(a, (a_upper as u32 + 32) as u32);
        }
        assert(ascii_lower(b_upper) == b) by {
            vstd::utf8::char_u32_cast(b, (b_upper as u32 + 32) as u32);
        }
        assert(ascii_lower(e@[0]) == a <==> (e@[0] == a || e@[0] == a_upper)) by {
            if 'A' <= e@[0] <= 'Z' && ascii_lower(e@[0]) == a {
                vstd::utf8::char_u32_cast(e@[0], e@[0] as u32);
                vstd::utf8::char_u32_cast(a_upper, a_upper as u32);
            }
        }
        assert(ascii_lower(e@[1]) == b <==> (e@[1] == b || e@[1] == b_upper)) by {
            if 'A' <= e@[1] <= 'Z' && ascii_lower(e@[1]) == b {
                vstd::utf8::char_u32_cast(e@[1], e@[1] as u32);
                vstd::utf8::char_u32_cast(b_upper, b_upper as u32);
            }
        }
        if r {
            assert forall|i: int| 0 <= i < e@.len() implies ascii_lower(e@[i]) == ascii_lower(seq![a, b][i]) by {
                if i == 0 {} else {}
            }
        } else {
            if !(e@[0] == a || e@[0] == a_upper) {
                assert(ascii_lower(e@[0]) != ascii_lower(seq![a, b][0]));
            } else {
                assert(ascii_lower(e@[1]) != ascii_lower(seq![a, b][1]));
            }
        }
    }
    r
}

impl FileInfo {
    /// The information for a document not stored in a file.
    pub fn new() -> (res: FileInfo)
        ensures
            res.path is None,
            res.file_type == FileType::Text,
    {
        FileInfo { path: None, file_type: FileType::Text }
    }

    /// The information for a document stored at `file_name`.
    pub fn from_path(file_name: &str) -> (res: FileInfo)
        ensures
            res.path matches Some(p) && p@ == file_name@,
            res.file_type == file_type_of(file_name@),
    {
        let path = str_chars(file_name);
        let name = match last_index(&path, '/') {
            Some(i) => skip_chars(&path, i + 1),
            None => skip_chars(&path, 0),
        };
        proof {
            assert(path@.skip(0) =~= path@);
        }
        let file_type = match last_index(&name, '.') {
            Some(i) => if i > 0 {
                let ext = skip_chars(&name, i + 1);
                if is_extension(&ext, 'r', 'R', 's', 'S') {
                    FileType::Rust
                } else if is_extension(&ext, 'm', 'M', 'd', 'D') {
                    FileType::MarkDown
                } else {
                    FileType::Text
                }
            } else {
                FileType::Text
            },
            None => FileType::Text,
        };
        FileInfo { path: Some(file_name.to_string()), file_type }
    }

    /// The name shown for the document: the last component of its path, or
    /// `[No Name]`.
    pub fn display_name(&self) -> (res: String)
        ensures
            res@ == display_name(match self.path {
                Some(p) => Some(p@),
                None => None,
            }),
    {
        proof {
            reveal_strlit("[No Name]");
        }
        match &self.path {
            Some(p) => {
                let path = str_chars(p.as_str());
                let name = match last_index(&path, '/') {
                    Some(i) => skip_chars(&path, i + 1),
                    None => skip_chars(&path, 0),
                };
                proof {
                    assert(path@.skip(0) =~= path@);
                }
                if name.len() > 0 {
                    crate::text::chars_to_string(name.as_slice())
                } else {
                    "[No Name]".to_string()
                }
            },
            None => "[No Name]".to_string(),
        }
    }

    /// The file type of the document.
    pub fn get_file_type(&self) -> (res: FileType)
        ensures
            res == self.file_type,
    {
        self.file_type
    }

    /// Whether the document is stored in a file.
    pub fn has_path(&self) -> (res: bool)
        ensures
            res == self.path is Some,
    {
        self.path.is_some()
    }
}

} // verus!
