//! Input-directory rules: which file names are accepted, which are
//! supported, and what an accepted file is renamed to in quarantine.
use crate::ids::{decimal, signed_decimal_string};
use crate::text::{ascii_lower_seq, ascii_lowercase, chars_of, contains_chars, contains_seq, string_of, trim_seq, trim_str};
use vstd::prelude::*;
use vstd::string::*;

verus! {

/// Why a file name was refused.
#[derive(Clone, Copy, Debug, PartialEq, Eq, Structural)]
pub enum FilenameError {
    Empty,
    Invalid,
}

/// An extension without a leading dot, in ASCII lower case.
pub open spec fn normalize_extension_spec(ext: Seq<char>) -> Seq<char> {
    if ext.len() > 0 && ext[0] == '.' {
        ascii_lower_seq(ext.drop_first())
    } else {
        ascii_lower_seq(ext)
    }
}

pub fn normalize_extension(ext: &str) -> (r: String)
    ensures
        r@ == normalize_extension_spec(ext@),
{
    let v = chars_of(ext);
    let t: String = if v.len() > 0 && v[0] == '.' {
        let mut rest: Vec<char> = Vec::new();
        let mut i: usize = 1;
        while i < v.len()
            invariant
                1 <= i <= v@.len(),
                rest@ == v@.subrange(1, i as int),
            decreases v.len() - i,
        {
            rest.push(v[i]);
            i = i + 1;
            assert(rest@ =~= v@.subrange(1, i as int));
        }
        assert(rest@ =~= ext@.drop_first());
        string_of(rest.as_slice())
    } else {
        String::from_str(ext)
    };
    let l = ascii_lowercase(t.as_str());
    string_of(l.as_slice())
}

/// Position of the last `c` in `s`, or -1.
pub open spec fn last_index_of(s: Seq<char>, c: char) -> int
    decreases s.len(),
{
    if s.len() == 0 {
        -1
    } else if s.last() == c {
        s.len() - 1
    } else {
        last_index_of(s.drop_last(), c)
    }
}

/// The part after the last `/`.
pub open spec fn base_name(s: Seq<char>) -> Seq<char> {
    s.subrange(last_index_of(s, '/') + 1, s.len() as int)
}

/// A file name's stem and extension, as `Path::file_stem` and
/// `Path::extension` split it: no extension without a dot after the first
/// character, else the part after the last dot.
pub open spec fn split_name(name: Seq<char>) -> (Seq<char>, Option<Seq<char>>) {
    let d = last_index_of(name, '.');
    if d <= 0 || name == ".."@ {
        (name, None)
    } else {
        (name.subrange(0, d), Some(name.subrange(d + 1, name.len() as int)))
    }
}

proof fn lemma_last_index(s: Seq<char>, c: char)
    ensures
        -1 <= last_index_of(s, c) < s.len(),
        last_index_of(s, c) >= 0 ==> s[last_index_of(s, c)] == c,
        forall|j: int| last_index_of(s, c) < j < s.len() ==> s[j] != c,
    decreases s.len(),
{
    if s.len() > 0 && s.last() != c {
        lemma_last_index(s.drop_last(), c);
        assert forall|j: int| last_index_of(s, c) < j < s.len() implies s[j] != c by {
            if j < s.len() - 1 {
                assert(s.drop_last()[j] == s[j]);
            }
        }
    }
}

fn last_index(v: &Vec<char>, c: char) -> (r: Option<usize>)
    ensures
        r is Some ==> r->0 < v@.len(),
        match r {
            Some(i) => last_index_of(v@, c) == i,
            None => last_index_of(v@, c) == -1,
        },
{
    let mut i: usize = v.len();
    assert(v@.subrange(0, v@.len() as int) =~= v@);
    proof {
        lemma_last_index(v@, c);
    }
    while i > 0
        invariant
            i <= v@.len(),
            last_index_of(v@, c) == last_index_of(v@.subrange(0, i as int), c),
        decreases i,
    {
        let ghost pre = v@.subrange(0, i as int);
        assert(pre.drop_last() =~= v@.subrange(0, i - 1));
        if v[i - 1] == c {
            return Some(i - 1);
        }
        i = i - 1;
    }
    None
}

fn copy_range(v: &Vec<char>, a: usize, b: usize) -> (r: Vec<char>)
    requires
        a <= b <= v@.len(),
    ensures
        r@ == v@.subrange(a as int, b as int),
{
    let mut r: Vec<char> = Vec::new();
    let mut i: usize = a;
    while i < b
        invariant
            a <= i <= b <= v@.len(),
            r@ == v@.subrange(a as int, i as int),
        decreases b - i,
    {
        r.push(v[i]);
        i = i + 1;
        assert(r@ =~= v@.subrange(a as int, i as int));
    }
    r
}

fn is_dot_dot(v: &Vec<char>) -> (r: bool)
    ensures
        r == (v@ == ".."@),
{
    proof {
        reveal_strlit("..");
    }
    let r = v.len() == 2 && v[0] == '.' && v[1] == '.';
    if r {
        assert(v@ =~= ".."@);
    }
    r
}

/// The stem and extension of a file name.
pub fn split_file_name(name: &str) -> (r: (String, Option<String>))
    ensures
        r.0@ == split_name(name@).0,
        match r.1 {
            Some(e) => split_name(name@).1 == Some(e@),
            None => split_name(name@).1 is None,
        },
{
    let v = chars_of(name);
    let vlen = v.len();
    match last_index(&v, '.') {
        Some(d) => {
            if d == 0 || is_dot_dot(&v) {
                (String::from_str(name), None)
            } else {
                proof {
                    lemma_last_index(v@, '.');
                }
                let stem = copy_range(&v, 0, d);
                let ext = copy_range(&v, d + 1, v.len());
                (string_of(stem.as_slice()), Some(string_of(ext.as_slice())))
            }
        },
        None => (String::from_str(name), None),
    }
}

/// The name given to an accepted file in quarantine when `counter` names
/// were taken: the name itself for 0, else `{stem}_{counter}.{ext}`, or
/// `{stem}_{counter}` without an extension.
pub open spec fn enqueued_name(file_name: Seq<char>, counter: nat) -> Seq<char> {
    if counter == 0 {
        file_name
    } else {
        let (stem, ext) = split_name(file_name);
        match ext {
            Some(e) => if e.len() > 0 {
                stem + "_"@ + decimal(counter) + "."@ + e
            } else {
                stem + "_"@ + decimal(counter)
            },
            None => stem + "_"@ + decimal(counter),
        }
    }
}

/// The quarantine name to try after `counter` collisions.
pub fn enqueued_candidate(file_name: &str, counter: u32) -> (r: String)
    ensures
        r@ == enqueued_name(file_name@, counter as nat),
{
    if counter == 0 {
        return String::from_str(file_name);
    }
    let (stem, ext) = split_file_name(file_name);
    let num = signed_decimal_string(counter as i64);
    let base = stem.concat("_").concat(num.as_str());
    match ext {
        Some(e) => {
            if e.as_str().unicode_len() > 0 {
                base.concat(".").concat(e.as_str())
            } else {
                base
            }
        },
        None => base,
    }
}

/// Trims the name and refuses an empty one or one with `..`, `/` or `\\`.
pub open spec fn sanitize_filename_spec(raw: Seq<char>) -> Result<Seq<char>, FilenameError> {
    let t = trim_seq(raw);
    if t.len() == 0 {
        Err(FilenameError::Empty)
    } else if contains_seq(t, ".."@) || contains_seq(t, seq!['/']) || contains_seq(t, seq!['\\']) {
        Err(FilenameError::Invalid)
    } else {
        Ok(t)
    }
}

/// The input directory with its accepted extensions.
pub struct DocumentManager {
    pub base_input_dir: String,
    pub workspace: Option<String>,
    pub supported_extensions: Vec<String>,
}

impl DocumentManager {
    /// A manager for `input_dir` (and its `workspace` subdirectory) that
    /// accepts the given extensions, normalized.
    pub fn new(input_dir: String, workspace: Option<String>, supported_extensions: &Vec<String>) -> (r: DocumentManager)
        ensures
            r.base_input_dir == input_dir,
            r.workspace == workspace,
            r.supported_extensions@.len() == supported_extensions@.len(),
            forall|i: int| 0 <= i < r.supported_extensions@.len() ==> (#[trigger] r.supported_extensions@[i])@ == normalize_extension_spec(supported_extensions@[i]@),
    {
        let mut exts: Vec<String> = Vec::new();
        let mut i: usize = 0;
        while i < supported_extensions.len()
            invariant
                i <= supported_extensions@.len(),
                exts@.len() == i,
                forall|j: int| 0 <= j < i ==> (#[trigger] exts@[j])@ == normalize_extension_spec(supported_extensions@[j]@),
            decreases supported_extensions.len() - i,
        {
            exts.push(normalize_extension(supported_extensions[i].as_str()));
            i = i + 1;
        }
        DocumentManager { base_input_dir: input_dir, workspace, supported_extensions: exts }
    }

    /// The input directory: the base, or its workspace subdirectory.
    pub fn input_dir(&self) -> (r: String)
        ensures
            r@ == match self.workspace {
                Some(ws) => self.base_input_dir@ + "/"@ + ws@,
                None => self.base_input_dir@,
            },
    {
        match &self.workspace {
            Some(ws) => self.base_input_dir.clone().concat("/").concat(ws.as_str()),
            None => self.base_input_dir.clone(),
        }
    }

    /// The file's extension, normalized, is one of the supported ones.
    pub open spec fn is_supported_spec(&self, filename: Seq<char>) -> bool {
        match split_name(base_name(filename)).1 {
            Some(e) => exists|i: int| 0 <= i < self.supported_extensions@.len() && (#[trigger] self.supported_extensions@[i])@ == normalize_extension_spec(e),
            None => false,
        }
    }

    /// Whether the file's extension, normalized, is one of the supported
    /// ones.
    pub fn is_supported_file(&self, filename: &str) -> (r: bool)
        ensures
            r == self.is_supported_spec(filename@),
    {
        let v = chars_of(filename);
        let vlen = v.len();
        let start = match last_index(&v, '/') {
            Some(p) => p + 1,
            None => 0,
        };
        proof {
            lemma_last_index(v@, '/');
        }
        let base_v = copy_range(&v, start, v.len());
        let base = string_of(base_v.as_slice());
        assert(start as int == last_index_of(v@, '/') + 1);
        assert(base@ == base_name(filename@));
        let (_, ext) = split_file_name(base.as_str());
        match ext {
            Some(e) => {
                let n = normalize_extension(e.as_str());
                let mut i: usize = 0;
                while i < self.supported_extensions.len()
                    invariant
                        n@ == normalize_extension_spec(e@),
                        split_name(base_name(filename@)).1 == Some(e@),
                        i <= self.supported_extensions@.len(),
                        forall|j: int| 0 <= j < i ==> (#[trigger] self.supported_extensions@[j])@ != n@,
                    decreases self.supported_extensions.len() - i,
                {
                    if self.supported_extensions[i] == n {
                        assert(self.supported_extensions@[i as int]@ == normalize_extension_spec(e@));
                        return true;
                    }
                    i = i + 1;
                }
                false
            },
            None => false,
        }
    }

    /// The trimmed name, or why it is refused.
    pub fn sanitize_filename(&self, raw: &str) -> (r: Result<String, FilenameError>)
        ensures
            match r {
                Ok(s) => sanitize_filename_spec(raw@) == Ok::<Seq<char>, FilenameError>(s@),
                Err(e) => sanitize_filename_spec(raw@) == Err::<Seq<char>, FilenameError>(e),
            },
    {
        let t = trim_str(raw);
        let v = chars_of(t.as_str());
        if v.len() == 0 {
            return Err(FilenameError::Empty);
        }
        let dd = chars_of("..");
        let mut slash: Vec<char> = Vec::new();
        slash.push('/');
        let mut back: Vec<char> = Vec::new();
        back.push('\\');
        assert(slash@ =~= seq!['/']);
        assert(back@ =~= seq!['\\']);
        if contains_chars(&v, &dd) || contains_chars(&v, &slash) || contains_chars(&v, &back) {
            return Err(FilenameError::Invalid);
        }
        Ok(t)
    }
}

} // verus!
