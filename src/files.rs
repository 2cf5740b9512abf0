use vstd::prelude::*;
use crate::path::{extension, extension_of};
use crate::text::{chars_of, is_word, starts_with, starts_with_chars, trim, trim_chars};

verus! {

/// The kinds of file that the line counter tells apart.
#[derive(Debug, Clone, Copy, PartialEq, Eq, Structural)]
pub enum FileType {
    TypeC,
    TypeH,
    TypeM,
    TypeK,
    TypeRust,
    TypeAsm,
    TypePython,
    TypeOther,
}

/// The kind of file that extension `e` marks.
pub open spec fn type_of_extension(e: Seq<char>) -> FileType {
    if e == "c"@ || e == "cpp"@ || e == "cc"@ {
        FileType::TypeC
    } else if e == "h"@ || e == "hpp"@ {
        FileType::TypeH
    } else if e == "rs"@ {
        FileType::TypeRust
    } else if e == "S"@ || e == "s"@ || e == "asm"@ {
        FileType::TypeAsm
    } else if e == "py"@ {
        FileType::TypePython
    } else {
        FileType::TypeOther
    }
}

/// The kind of file that a few special names mark.
pub open spec fn type_of_special_name(n: Seq<char>) -> FileType {
    if n == "Makfile"@ {
        FileType::TypeM
    } else if n == "Kconfig"@ {
        FileType::TypeK
    } else {
        FileType::TypeOther
    }
}

/// The kind of the file named `n`, as the counter files it.
pub open spec fn type_of_file(n: Seq<char>) -> FileType {
    if n == "Makefile"@ {
        FileType::TypeM
    } else if n == "Kconfig"@ {
        FileType::TypeK
    } else {
        match extension(n) {
            Some(e) => type_of_extension(e),
            None => FileType::TypeOther,
        }
    }
}

impl FileType {
    /// The kind of file that extension `extension` marks.
    pub fn from_extension(extension: &str) -> (r: FileType)
        ensures
            r == type_of_extension(extension@),
    {
        let e = chars_of(extension);
        if is_word(&e, "c") || is_word(&e, "cpp") || is_word(&e, "cc") {
            FileType::TypeC
        } else if is_word(&e, "h") || is_word(&e, "hpp") {
            FileType::TypeH
        } else if is_word(&e, "rs") {
            FileType::TypeRust
        } else if is_word(&e, "S") || is_word(&e, "s") || is_word(&e, "asm") {
            FileType::TypeAsm
        } else if is_word(&e, "py") {
            FileType::TypePython
        } else {
            FileType::TypeOther
        }
    }

    /// The kind of file that the special name `filename` marks.
    pub fn from_filename(filename: &str) -> (r: FileType)
        ensures
            r == type_of_special_name(filename@),
    {
        let n = chars_of(filename);
        if is_word(&n, "Makfile") {
            FileType::TypeM
        } else if is_word(&n, "Kconfig") {
            FileType::TypeK
        } else {
            FileType::TypeOther
        }
    }

    /// The kind of the file named `file_name`.
    pub fn from_file_name(file_name: &str) -> (r: FileType)
        ensures
            r == type_of_file(file_name@),
    {
        let n = chars_of(file_name);
        if is_word(&n, "Makefile") {
            FileType::TypeM
        } else if is_word(&n, "Kconfig") {
            FileType::TypeK
        } else {
            match extension_of(&n) {
                Some(e) => {
                    let s = crate::text::string_of(&e);
                    FileType::from_extension(s.as_str())
                },
                None => FileType::TypeOther,
            }
        }
    }

}

/// How a line counts: blank, comment or code.
#[derive(Debug, Clone, Copy, PartialEq, Eq, Structural)]
pub enum LineClass {
    Blank,
    Comment,
    Code,
}

/// The class of line `l`: blank when only white space, comment when it begins
/// (after white space) with `//`, `/*`, `*`, `#` or `;`, code otherwise.
pub open spec fn class_of(l: Seq<char>) -> LineClass {
    let t = trim(l);
    if t.len() == 0 {
        LineClass::Blank
    } else if starts_with(t, "//"@) || starts_with(t, "/*"@) || starts_with(t, "*"@) || starts_with(
        t,
        "#"@,
    ) || starts_with(t, ";"@) {
        LineClass::Comment
    } else {
        LineClass::Code
    }
}

/// The number of lines of `lines` in class `c`.
pub open spec fn count_class(lines: Seq<Seq<char>>, c: LineClass) -> nat
    decreases lines.len(),
{
    if lines.len() == 0 {
        0
    } else {
        count_class(lines.drop_last(), c) + if class_of(lines.last()) == c {
            1nat
        } else {
            0nat
        }
    }
}

proof fn lemma_count_class_bound(lines: Seq<Seq<char>>, c: LineClass)
    ensures
        count_class(lines, c) <= lines.len(),
    decreases lines.len(),
{
    if lines.len() > 0 {
        lemma_count_class_bound(lines.drop_last(), c);
    }
}

/// The class of line `l`.
pub fn classify_line(l: &str) -> (r: LineClass)
    ensures
        r == class_of(l@),
{
    let t = trim_chars(&chars_of(l));
    if t.len() == 0 {
        LineClass::Blank
    } else if starts_with_chars(&t, &chars_of("//")) || starts_with_chars(&t, &chars_of("/*"))
        || starts_with_chars(&t, &chars_of("*")) || starts_with_chars(&t, &chars_of("#"))
        || starts_with_chars(&t, &chars_of(";")) {
        LineClass::Comment
    } else {
        LineClass::Code
    }
}

/// The counts of one kind of file.
#[derive(Debug, Clone, Copy, PartialEq, Eq, Structural)]
pub struct FileStat {
    pub files: usize,
    pub blank: usize,
    pub comment: usize,
    pub code: usize,
}

/// `a + b`, stopping at the largest `usize`.
pub open spec fn sat(a: int, b: int) -> int {
    if a + b <= usize::MAX {
        a + b
    } else {
        usize::MAX as int
    }
}

/// The counts of kind `st` after one more file with lines `lines`.
pub open spec fn add_file(st: FileStat, lines: Seq<Seq<char>>) -> FileStat {
    FileStat {
        files: sat(st.files as int, 1) as usize,
        blank: sat(st.blank as int, count_class(lines, LineClass::Blank) as int) as usize,
        comment: sat(st.comment as int, count_class(lines, LineClass::Comment) as int) as usize,
        code: sat(st.code as int, count_class(lines, LineClass::Code) as int) as usize,
    }
}

/// Line counts by kind of file, for one architecture of one kernel version.
pub struct FileCounter {
    arch: String,
    version: String,
    dir_path: String,
    file_count: FileTable,
}

/// The counts of each kind of file.
struct FileTable {
    c: FileStat,
    h: FileStat,
    m: FileStat,
    k: FileStat,
    rust: FileStat,
    assembly: FileStat,
    python: FileStat,
    other: FileStat,
}

/// Counts of nothing.
pub open spec fn zero_stat() -> FileStat {
    FileStat { files: 0, blank: 0, comment: 0, code: 0 }
}

impl FileTable {
    spec fn get(&self, t: FileType) -> FileStat {
        match t {
            FileType::TypeC => self.c,
            FileType::TypeH => self.h,
            FileType::TypeM => self.m,
            FileType::TypeK => self.k,
            FileType::TypeRust => self.rust,
            FileType::TypeAsm => self.assembly,
            FileType::TypePython => self.python,
            FileType::TypeOther => self.other,
        }
    }

    spec fn zero() -> FileTable {
        FileTable {
            c: zero_stat(),
            h: zero_stat(),
            m: zero_stat(),
            k: zero_stat(),
            rust: zero_stat(),
            assembly: zero_stat(),
            python: zero_stat(),
            other: zero_stat(),
        }
    }

    fn new() -> (r: FileTable)
        ensures
            r == FileTable::zero(),
    {
        let z = FileStat { files: 0, blank: 0, comment: 0, code: 0 };
        FileTable { c: z, h: z, m: z, k: z, rust: z, assembly: z, python: z, other: z }
    }

    fn stat(&self, t: FileType) -> (r: FileStat)
        ensures
            r == self.get(t),
    {
        match t {
            FileType::TypeC => self.c,
            FileType::TypeH => self.h,
            FileType::TypeM => self.m,
            FileType::TypeK => self.k,
            FileType::TypeRust => self.rust,
            FileType::TypeAsm => self.assembly,
            FileType::TypePython => self.python,
            FileType::TypeOther => self.other,
        }
    }

    fn set(&mut self, t: FileType, st: FileStat)
        ensures
            forall|u: FileType|
                #[trigger] final(self).get(u) == if u == t {
                    st
                } else {
                    old(self).get(u)
                },
    {
        match t {
            FileType::TypeC => self.c = st,
            FileType::TypeH => self.h = st,
            FileType::TypeM => self.m = st,
            FileType::TypeK => self.k = st,
            FileType::TypeRust => self.rust = st,
            FileType::TypeAsm => self.assembly = st,
            FileType::TypePython => self.python = st,
            FileType::TypeOther => self.other = st,
        }
    }
}

impl FileCounter {
    /// The counts of kind `t`; a kind with no file has none.
    pub closed spec fn stat_of(&self, t: FileType) -> FileStat {
        self.file_count.get(t)
    }

    pub closed spec fn dir(&self) -> Seq<char> {
        self.dir_path@
    }

    pub closed spec fn arch(&self) -> Seq<char> {
        self.arch@
    }

    pub closed spec fn version(&self) -> Seq<char> {
        self.version@
    }

    /// A counter for directory `dir_path`, with no file counted.
    pub fn new(arch: String, version: String, dir_path: String) -> (r: FileCounter)
        ensures
            r.dir() == dir_path@,
            r.arch() == arch@,
            r.version() == version@,
            forall|t: FileType| #[trigger] r.stat_of(t) == zero_stat(),
    {
        FileCounter { arch, version, dir_path, file_count: FileTable::new() }
    }

    /// The number of blank, comment and code lines among `lines`.
    pub fn count_lines(lines: &Vec<String>) -> (r: (usize, usize, usize))
        ensures
            r.0 == count_class(lines.deep_view(), LineClass::Blank),
            r.1 == count_class(lines.deep_view(), LineClass::Comment),
            r.2 == count_class(lines.deep_view(), LineClass::Code),
    {
        let mut blank: usize = 0;
        let mut comment: usize = 0;
        let mut code: usize = 0;
        let mut k: usize = 0;
        while k < lines.len()
            invariant
                k <= lines@.len(),
                blank == count_class(lines.deep_view().subrange(0, k as int), LineClass::Blank),
                comment == count_class(lines.deep_view().subrange(0, k as int), LineClass::Comment),
                code == count_class(lines.deep_view().subrange(0, k as int), LineClass::Code),
            decreases lines@.len() - k,
        {
            let ghost prefix = lines.deep_view().subrange(0, k + 1);
            assert(prefix.drop_last() =~= lines.deep_view().subrange(0, k as int));
            proof {
                lemma_count_class_bound(prefix.drop_last(), LineClass::Blank);
                lemma_count_class_bound(prefix.drop_last(), LineClass::Comment);
                lemma_count_class_bound(prefix.drop_last(), LineClass::Code);
            }
            let c = classify_line(lines[k].as_str());
            match c {
                LineClass::Blank => {
                    blank = blank + 1;
                },
                LineClass::Comment => {
                    comment = comment + 1;
                },
                LineClass::Code => {
                    code = code + 1;
                },
            }
            k = k + 1;
        }
        assert(lines.deep_view().subrange(0, k as int) =~= lines.deep_view());
        (blank, comment, code)
    }

    /// Counts one file, named `file_name`, with lines `lines`, under its kind.
    pub fn search(&mut self, file_name: &str, lines: &Vec<String>)
        ensures
            final(self).dir() == old(self).dir(),
            final(self).arch() == old(self).arch(),
            final(self).version() == old(self).version(),
            forall|t: FileType|
                #[trigger] final(self).stat_of(t) == if t == type_of_file(file_name@) {
                    add_file(old(self).stat_of(t), lines.deep_view())
                } else {
                    old(self).stat_of(t)
                },
    {
        let t = FileType::from_file_name(file_name);
        let (blank, comment, code) = FileCounter::count_lines(lines);
        let st = self.file_count.stat(t);
        let nst = FileStat {
            files: st.files.saturating_add(1),
            blank: st.blank.saturating_add(blank),
            comment: st.comment.saturating_add(comment),
            code: st.code.saturating_add(code),
        };
        self.file_count.set(t, nst);
    }

    /// The counts of kind `t`.
    pub fn stat(&self, t: FileType) -> (r: FileStat)
        ensures
            r == self.stat_of(t),
    {
        self.file_count.stat(t)
    }

    /// The architecture counted.
    pub fn arch_name(&self) -> (r: &String)
        ensures
            r@ == self.arch(),
    {
        &self.arch
    }

    /// The kernel version counted.
    pub fn kernel_version(&self) -> (r: &String)
        ensures
            r@ == self.version(),
    {
        &self.version
    }

    /// The directory counted.
    pub fn dir_path(&self) -> (r: &String)
        ensures
            r@ == self.dir(),
    {
        &self.dir_path
    }
}

impl From<(String, String, String)> for FileCounter {
    /// A counter for `(arch, version, dir_path)`, as `new` makes it.
    fn from(value: (String, String, String)) -> (r: FileCounter) {
        FileCounter {
            arch: value.0,
            version: value.1,
            dir_path: value.2,
            file_count: FileTable::new(),
        }
    }
}

impl vstd::std_specs::convert::FromSpecImpl<(String, String, String)> for FileCounter {
    open spec fn obeys_from_spec() -> bool {
        true
    }

    closed spec fn from_spec(v: (String, String, String)) -> FileCounter {
        FileCounter { arch: v.0, version: v.1, dir_path: v.2, file_count: FileTable::zero() }
    }
}

/// What `FileCounter::from` makes: the counter that `new` makes of the same parts.
pub proof fn lemma_from_is_new(v: (String, String, String))
    ensures
        ({
            let r = <FileCounter as vstd::std_specs::convert::FromSpec<
                (String, String, String),
            >>::from_spec(v);
            &&& r.arch() == v.0@
            &&& r.version() == v.1@
            &&& r.dir() == v.2@
            &&& forall|t: FileType| #[trigger] r.stat_of(t) == zero_stat()
        }),
{
}

} // verus!
