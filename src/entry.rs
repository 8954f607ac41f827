//! Book folders: the format of the book file they hold, and the names of
//! the book file and its sidecar.
use vstd::prelude::*;
use vstd::utf8::encode_utf8;
use vstd::string::StringSliceAdditionalSpecFns;
use vstd::string::StringExecFns;

verus! {

/// The container format of a book file.
#[derive(Debug, Clone, Copy, PartialEq, Eq, Structural)]
pub enum BookFormat {
    EPUB,
    PDF,
}

/// The file extension of a format, without the dot.
pub open spec fn extension_spec(f: BookFormat) -> Seq<char> {
    match f {
        BookFormat::EPUB => seq!['e', 'p', 'u', 'b'],
        BookFormat::PDF => seq!['p', 'd', 'f'],
    }
}

/// Index of the last `.` in `b`, or `-1` when there is none.
pub open spec fn last_dot(b: Seq<u8>) -> int
    decreases b.len(),
{
    if b.len() == 0 {
        -1
    } else if b.last() == 0x2e {
        b.len() - 1
    } else {
        last_dot(b.drop_last())
    }
}

/// The extension of a file name: what follows its last `.`, where that dot
/// is not the name's first byte.
pub open spec fn file_extension(b: Seq<u8>) -> Option<Seq<u8>> {
    let i = last_dot(b);
    if i <= 0 {
        None
    } else {
        Some(b.skip(i + 1))
    }
}

/// The format of a file, by the extension of its name (given as UTF-8 bytes).
pub open spec fn format_of(b: Seq<u8>) -> Option<BookFormat> {
    match file_extension(b) {
        Some(e) => if e == seq![0x65u8, 0x70u8, 0x75u8, 0x62u8] {
            Some(BookFormat::EPUB)
        } else if e == seq![0x70u8, 0x64u8, 0x66u8] {
            Some(BookFormat::PDF)
        } else {
            None
        },
        None => None,
    }
}

/// The format of the file named `name`.
pub open spec fn name_format(name: Seq<char>) -> Option<BookFormat> {
    format_of(encode_utf8(name))
}

/// The format given by the first file of `names` whose name has a book
/// extension, if any does.
pub open spec fn first_format(names: Seq<String>) -> Option<BookFormat> {
    if exists|i: int| 0 <= i < names.len() && (#[trigger] name_format(names[i]@)) is Some {
        let i = choose|i: int|
            0 <= i < names.len() && (#[trigger] name_format(names[i]@)) is Some && forall|j: int|
                0 <= j < i ==> name_format(names[j]@) is None;
        name_format(names[i]@)
    } else {
        None
    }
}

/// A folder whose only book file is the one at `k`, among any number of
/// other files, has the format of that file, wherever it stands in the
/// listing.
pub proof fn lemma_single_book_file(names: Seq<String>, k: int)
    requires
        0 <= k < names.len(),
        name_format(names[k]@) is Some,
        forall|j: int| 0 <= j < names.len() && j != k ==> name_format(names[j]@) is None,
    ensures
        first_format(names) == name_format(names[k]@),
{
    assert(forall|j: int| 0 <= j < k ==> name_format(names[j]@) is None);
    let i = choose|i: int|
        0 <= i < names.len() && (#[trigger] name_format(names[i]@)) is Some && forall|j: int|
            0 <= j < i ==> name_format(names[j]@) is None;
    assert(i == k);
}

proof fn lemma_last_dot_bounds(b: Seq<u8>)
    ensures
        -1 <= last_dot(b) < b.len(),
        last_dot(b) >= 0 ==> b[last_dot(b)] == 0x2e,
        forall|j: int| last_dot(b) < j < b.len() ==> b[j] != 0x2e,
    decreases b.len(),
{
    if b.len() > 0 && b.last() != 0x2e {
        lemma_last_dot_bounds(b.drop_last());
        assert forall|j: int| last_dot(b) < j < b.len() implies b[j] != 0x2e by {
            if j < b.len() - 1 {
                assert(b[j] == b.drop_last()[j]);
            }
        }
    }
}

proof fn lemma_last_dot_from(b: Seq<u8>, i: int)
    requires
        -1 <= i < b.len(),
        i >= 0 ==> b[i] == 0x2e,
        forall|j: int| i < j < b.len() ==> b[j] != 0x2e,
    ensures
        last_dot(b) == i,
    decreases b.len(),
{
    if b.len() > 0 && b.last() != 0x2e {
        let c = b.drop_last();
        assert forall|j: int| i < j < c.len() implies c[j] != 0x2e by {
            assert(c[j] == b[j]);
        }
        if i >= 0 {
            assert(c[i] == b[i]);
        }
        lemma_last_dot_from(c, i);
    }
}

impl BookFormat {
    /// The file extension of this format, without the dot.
    pub fn extension(&self) -> (r: &'static str)
        ensures
            r@ == extension_spec(*self),
    {
        match self {
            BookFormat::EPUB => {
                proof {
                    reveal_strlit("epub");
                }
                "epub"
            },
            BookFormat::PDF => {
                proof {
                    reveal_strlit("pdf");
                }
                "pdf"
            },
        }
    }

    /// The format of a file by its name: the extension after the last dot
    /// must be `epub` or `pdf`.
    pub fn from_file_name(name: &str) -> (r: Option<BookFormat>)
        ensures
            r == name_format(name@),
    {
        let b = name.as_bytes();
        proof {
            lemma_last_dot_bounds(b@);
        }
        let mut i: usize = b.len();
        while i > 0 && b[i - 1] != 0x2e
            invariant
                i <= b@.len(),
                forall|j: int| i <= j < b@.len() ==> b@[j] != 0x2e,
            decreases i,
        {
            i = i - 1;
        }
        proof {
            lemma_last_dot_from(b@, i - 1);
        }
        if i <= 1 {
            return None;
        }
        let ghost e = b@.skip(i as int);
        let n = b.len() - i;
        if n == 4 && b[i] == 0x65 && b[i + 1] == 0x70 && b[i + 2] == 0x75 && b[i + 3] == 0x62 {
            assert(e =~= seq![0x65u8, 0x70u8, 0x75u8, 0x62u8]);
            Some(BookFormat::EPUB)
        } else if n == 3 && b[i] == 0x70 && b[i + 1] == 0x64 && b[i + 2] == 0x66 {
            assert(e =~= seq![0x70u8, 0x64u8, 0x66u8]);
            assert(e != seq![0x65u8, 0x70u8, 0x75u8, 0x62u8]);
            Some(BookFormat::PDF)
        } else {
            assert(e != seq![0x65u8, 0x70u8, 0x75u8, 0x62u8]) by {
                if e == seq![0x65u8, 0x70u8, 0x75u8, 0x62u8] {
                    assert(e.len() == 4 && e[0] == b@[i as int]);
                    assert(e[1] == b@[i + 1] && e[2] == b@[i + 2] && e[3] == b@[i + 3]);
                }
            }
            assert(e != seq![0x70u8, 0x64u8, 0x66u8]) by {
                if e == seq![0x70u8, 0x64u8, 0x66u8] {
                    assert(e.len() == 3 && e[0] == b@[i as int]);
                    assert(e[1] == b@[i + 1] && e[2] == b@[i + 2]);
                }
            }
            None
        }
    }
}

/// The format of a book folder: that of the first of its file names, in
/// the order given, that has a book extension.
pub fn detect_format(names: &Vec<String>) -> (r: Option<BookFormat>)
    ensures
        r == first_format(names@),
        r is None <==> forall|i: int| 0 <= i < names@.len() ==> name_format(names@[i]@) is None,
{
    let mut i: usize = 0;
    while i < names.len()
        invariant
            i <= names@.len(),
            forall|j: int| 0 <= j < i ==> name_format(names@[j]@) is None,
        decreases names@.len() - i,
    {
        let f = BookFormat::from_file_name(names[i].as_str());
        if f.is_some() {
            proof {
                let ii = i as int;
                assert(0 <= ii < names@.len() && name_format(names@[ii]@) is Some);
                let k = choose|k: int|
                    0 <= k < names@.len() && (#[trigger] name_format(names@[k]@)) is Some
                        && forall|j: int| 0 <= j < k ==> name_format(names@[j]@) is None;
                assert(k == ii) by {
                    if k < ii {
                    } else if k > ii {
                        assert(name_format(names@[ii]@) is None);
                    }
                }
            }
            return f;
        }
        i = i + 1;
    }
    None
}

/// One book folder: its name, which is also the base name of the book file
/// and of the sidecar file inside it, and the format of the book file.
#[derive(Debug)]
pub struct BookEntry {
    pub id: String,
    pub format: BookFormat,
}

impl BookEntry {
    /// The entry of the folder `id` whose regular files are named
    /// `file_names`, in listing order; `None` when none of them is a book
    /// file, as such a folder is not a book.
    pub fn new(id: String, file_names: &Vec<String>) -> (r: Option<BookEntry>)
        ensures
            match r {
                Some(e) => e.id@ == id@ && first_format(file_names@) == Some(e.format),
                None => first_format(file_names@) is None,
            },
    {
        match detect_format(file_names) {
            Some(format) => Some(BookEntry { id, format }),
            None => None,
        }
    }

    /// The name of the book file: the folder name with the format's
    /// extension.
    pub fn book_file_name(&self) -> (r: String)
        ensures
            r@ == self.id@ + seq!['.'] + extension_spec(self.format),
    {
        let mut r = self.id.clone();
        r.append(".");
        proof {
            reveal_strlit(".");
        }
        r.append(self.format.extension());
        r
    }

    /// The name of the sidecar file: the folder name with the extension
    /// `dat`.
    pub fn data_file_name(&self) -> (r: String)
        ensures
            r@ == self.id@ + seq!['.', 'd', 'a', 't'],
    {
        let mut r = self.id.clone();
        r.append(".dat");
        proof {
            reveal_strlit(".dat");
        }
        assert(r@ =~= self.id@ + seq!['.', 'd', 'a', 't']);
        r
    }
}

} // verus!
