use vstd::prelude::*;
use crate::path::{
    ascend_to,
    ascend_to_dir,
    extension,
    extension_of,
    join,
    join_paths,
    parent,
    parent_of,
};
use crate::text::{
    chars_of,
    contains,
    contains_chars,
    field,
    field_chars,
    same_chars,
    starts_with,
    starts_with_chars,
    string_of,
    trim,
    trim_chars,
    unquote,
    unquote_chars,
};

verus! {

/// How a component takes its value.
#[derive(Debug, Clone, Copy, PartialEq, Eq, Structural)]
pub enum KconfigComponentType {
    Unknown,
    Bool,
    Value,
}

/// What is known of one configuration component.
pub struct KconfigStat {
    pub default_value: Vec<String>,
    pub select: Vec<String>,
    pub depend: Vec<String>,
    pub value_type: KconfigComponentType,
    pub count: usize,
    pub code_snippets: Vec<String>,
}

/// The model of a `KconfigStat`.
pub struct StatView {
    pub defaults: Seq<Seq<char>>,
    pub selects: Seq<Seq<char>>,
    pub depends: Seq<Seq<char>>,
    pub kind: KconfigComponentType,
    pub count: nat,
    pub snippets: Seq<Seq<char>>,
}

impl View for KconfigStat {
    type V = StatView;

    open spec fn view(&self) -> StatView {
        StatView {
            defaults: self.default_value.deep_view(),
            selects: self.select.deep_view(),
            depends: self.depend.deep_view(),
            kind: self.value_type,
            count: self.count as nat,
            snippets: self.code_snippets.deep_view(),
        }
    }
}

/// The record of a component at its first sighting, before it is counted.
pub open spec fn fresh_stat() -> StatView {
    StatView {
        defaults: Seq::empty(),
        selects: Seq::empty(),
        depends: Seq::empty(),
        kind: KconfigComponentType::Value,
        count: 0,
        snippets: Seq::empty(),
    }
}

/// One more sighting of a component's header (the count stops at the largest `usize`).
pub open spec fn counted(st: StatView) -> StatView {
    StatView { count: if st.count < usize::MAX { st.count + 1 } else { st.count }, ..st }
}

/// The effect of an attribute line `t` (trimmed) on the active component.
pub open spec fn apply_attr(st: StatView, t: Seq<char>) -> StatView {
    if starts_with(t, "depends on"@) {
        StatView { depends: st.depends.push(field(t, "depends on"@)), ..st }
    } else if starts_with(t, "bool"@) {
        StatView { kind: KconfigComponentType::Bool, ..st }
    } else if starts_with(t, "default"@) {
        StatView { defaults: st.defaults.push(field(t, "default"@)), ..st }
    } else if starts_with(t, "def_bool"@) {
        StatView {
            defaults: seq![field(t, "def_bool"@)],
            kind: KconfigComponentType::Bool,
            ..st
        }
    } else if starts_with(t, "select"@) {
        StatView { selects: st.selects.push(field(t, "select"@)), ..st }
    } else {
        st
    }
}

/// No name stands twice in `s`.
pub open spec fn unique(s: Seq<Seq<char>>) -> bool {
    forall|i: int, j: int| 0 <= i < j < s.len() ==> s[i] != s[j]
}

/// The first position at or after `i` that holds `n`.
pub open spec fn index_from(s: Seq<Seq<char>>, n: Seq<char>, i: int) -> Option<int>
    decreases s.len() - i,
{
    if i < 0 || i >= s.len() {
        None
    } else if s[i] == n {
        Some(i)
    } else {
        index_from(s, n, i + 1)
    }
}

/// The position of `n` in `s`.
pub open spec fn index_of(s: Seq<Seq<char>>, n: Seq<char>) -> Option<int> {
    index_from(s, n, 0)
}

/// What `index_from` gives: a position of `n`, or none at or after `i`.
pub proof fn lemma_index_from(s: Seq<Seq<char>>, n: Seq<char>, i: int)
    requires
        0 <= i,
    ensures
        index_from(s, n, i) matches Some(j) ==> i <= j < s.len() && s[j] == n,
        index_from(s, n, i) is None ==> forall|k: int| i <= k < s.len() ==> s[k] != n,
    decreases s.len() - i,
{
    if i < s.len() && s[i] != n {
        lemma_index_from(s, n, i + 1);
    }
}

/// In a list without repeats, the position of a name is where it stands.
pub proof fn lemma_index_of_unique(s: Seq<Seq<char>>, n: Seq<char>, i: int, j: int)
    requires
        unique(s),
        0 <= j <= i < s.len(),
        s[i] == n,
    ensures
        index_from(s, n, j) == Some(i),
    decreases i - j,
{
    if j < i {
        lemma_index_of_unique(s, n, i, j + 1);
    }
}

/// A Kconfig line that is a comment.
pub open spec fn is_comment(t: Seq<char>) -> bool {
    starts_with(t, "#"@)
}

/// A Kconfig line that includes another file.
pub open spec fn is_source(t: Seq<char>) -> bool {
    !is_comment(t) && starts_with(t, "source"@)
}

/// A Kconfig line that opens a component's stanza.
pub open spec fn is_header(t: Seq<char>) -> bool {
    starts_with(t, "config "@)
}

/// A line that the stanza parser reads: neither comment, source nor blank.
pub open spec fn is_stanza(t: Seq<char>) -> bool {
    !is_comment(t) && !starts_with(t, "source"@) && t.len() > 0
}

/// The name that a header (or a bare `config` line after a blank line) gives.
pub open spec fn header_name(t: Seq<char>) -> Seq<char> {
    field(t, "config"@)
}

/// The state that the stanza parser carries from line to line within one file.
pub struct KconfigScan {
    /// The position of the active component in the table.
    pub current: Option<usize>,
    /// A blank line came last (comments aside).
    pub update: bool,
}

/// The model of a `KconfigScan`.
pub struct ScanView {
    pub current: Option<int>,
    pub update: bool,
}

impl View for KconfigScan {
    type V = ScanView;

    open spec fn view(&self) -> ScanView {
        ScanView {
            current: match self.current {
                Some(i) => Some(i as int),
                None => None,
            },
            update: self.update,
        }
    }
}

impl KconfigScan {
    /// The state at the top of a file: no active component.
    pub fn new() -> (r: KconfigScan)
        ensures
            r@ == (ScanView { current: None, update: false }),
    {
        KconfigScan { current: None, update: false }
    }
}

/// The table of names after line `t` (trimmed).
pub open spec fn step_names(names: Seq<Seq<char>>, t: Seq<char>) -> Seq<Seq<char>> {
    if is_stanza(t) && is_header(t) && index_of(names, header_name(t)) is None {
        names.push(header_name(t))
    } else {
        names
    }
}

/// The scan state after line `t` (trimmed).
pub open spec fn step_scan(names: Seq<Seq<char>>, scan: ScanView, t: Seq<char>) -> ScanView {
    if is_comment(t) {
        scan
    } else if starts_with(t, "source"@) {
        ScanView { update: false, ..scan }
    } else if t.len() == 0 {
        ScanView { update: true, ..scan }
    } else if is_header(t) {
        ScanView { current: index_of(step_names(names, t), header_name(t)), update: false }
    } else if scan.update && starts_with(t, "config"@) {
        ScanView { current: index_of(names, header_name(t)), update: false }
    } else {
        ScanView { update: false, ..scan }
    }
}

/// The records after line `t` (trimmed).
pub open spec fn step_stats(
    names: Seq<Seq<char>>,
    stats: Seq<StatView>,
    scan: ScanView,
    t: Seq<char>,
) -> Seq<StatView> {
    if !is_stanza(t) {
        stats
    } else if is_header(t) {
        match index_of(names, header_name(t)) {
            Some(i) => stats.update(i, counted(stats[i])),
            None => stats.push(counted(fresh_stat())),
        }
    } else {
        match step_scan(names, scan, t).current {
            Some(i) => stats.update(i, apply_attr(stats[i], t)),
            None => stats,
        }
    }
}

/// The file that a `source` line names, as a path below `root`.
pub open spec fn source_target(root: Seq<char>, t: Seq<char>) -> Seq<char> {
    join(root, unquote(field(t, "source"@)))
}

/// The directory that relative `source` paths start from: the nearest one above the
/// entry file named `linux-<version>`.
pub open spec fn kernel_root(entry: Seq<char>, version: Seq<char>) -> Seq<char> {
    ascend_to(entry, "linux-"@ + version)
}

/// The resolver's policy: a file is read where every file is wanted or its path
/// lies in an architecture directory.
pub open spec fn descends(check_all: bool, path: Seq<char>) -> bool {
    check_all || contains(path, "/arch/"@)
}

/// The candidate directories after `path` was resolved.
pub open spec fn add_dir(dirs: Seq<Seq<char>>, path: Seq<char>) -> Seq<Seq<char>> {
    match parent(path) {
        Some(d) => if dirs.contains(d) {
            dirs
        } else {
            dirs.push(d)
        },
        None => dirs,
    }
}

/// The state of the code correlator within one C file.
pub struct CodeView {
    /// The names of the open guards, outermost first.
    pub stack: Seq<Seq<char>>,
    /// The component whose snippet is being gathered.
    pub owner: Option<int>,
    /// The snippet gathered so far.
    pub buf: Seq<char>,
    /// The number of lines in `buf`.
    pub buf_lines: nat,
}

/// What the correlator has produced, and where it stands.
pub struct CodeRun {
    pub stats: Seq<StatView>,
    pub total: nat,
    pub scan: CodeView,
}

/// The correlator's state at the top of a file.
pub open spec fn code_start() -> CodeView {
    CodeView { stack: Seq::empty(), owner: None, buf: Seq::empty(), buf_lines: 0 }
}

/// A C line that opens a guard.
pub open spec fn opens_guard(l: Seq<char>) -> bool {
    contains(l, "#ifdef CONFIG_"@)
}

/// A C line that closes a guard.
pub open spec fn closes_guard(l: Seq<char>) -> bool {
    !opens_guard(l) && contains(l, "#endif"@)
}

/// The component name that a guard-opening line names.
pub open spec fn guard_name(l: Seq<char>) -> Seq<char> {
    field(trim(l), "#ifdef CONFIG_"@)
}

/// `buf` with line `l` and its line break appended.
pub open spec fn with_line(buf: Seq<char>, l: Seq<char>) -> Seq<char> {
    buf + l + seq!['\n']
}

/// Line `l` closes the outermost guard while a snippet is gathered.
pub open spec fn finishes(cs: CodeView, l: Seq<char>) -> bool {
    closes_guard(l) && cs.stack.len() == 1 && cs.owner is Some
}

/// `a + b`, stopping at the largest `usize`.
pub open spec fn sat_add(a: nat, b: nat) -> nat {
    if a + b <= usize::MAX {
        a + b
    } else {
        usize::MAX as nat
    }
}

/// The correlator's state after C line `l`.
pub open spec fn code_scan_step(names: Seq<Seq<char>>, cs: CodeView, l: Seq<char>) -> CodeView {
    if opens_guard(l) {
        let g = guard_name(l);
        if cs.stack.len() == 0 && index_of(names, g) is Some {
            CodeView {
                stack: seq![g],
                owner: index_of(names, g),
                buf: with_line(Seq::empty(), l),
                buf_lines: 1,
            }
        } else if cs.owner is Some {
            CodeView {
                stack: cs.stack.push(g),
                buf: with_line(cs.buf, l),
                buf_lines: cs.buf_lines + 1,
                ..cs
            }
        } else {
            CodeView { stack: cs.stack.push(g), ..cs }
        }
    } else if closes_guard(l) {
        if cs.stack.len() == 0 {
            cs
        } else if cs.stack.len() == 1 {
            code_start()
        } else if cs.owner is Some {
            CodeView {
                stack: cs.stack.drop_last(),
                buf: with_line(cs.buf, l),
                buf_lines: cs.buf_lines + 1,
                ..cs
            }
        } else {
            CodeView { stack: cs.stack.drop_last(), ..cs }
        }
    } else if cs.owner is Some {
        CodeView { buf: with_line(cs.buf, l), buf_lines: cs.buf_lines + 1, ..cs }
    } else {
        cs
    }
}

/// The correlator after C line `l`: where the outermost guard closes, the snippet,
/// closing line included, is recorded.
pub open spec fn code_step(names: Seq<Seq<char>>, run: CodeRun, l: Seq<char>) -> CodeRun {
    CodeRun {
        stats: if finishes(run.scan, l) {
            let i = run.scan.owner->0;
            run.stats.update(
                i,
                StatView {
                    snippets: run.stats[i].snippets.push(with_line(run.scan.buf, l)),
                    ..run.stats[i]
                },
            )
        } else {
            run.stats
        },
        total: if finishes(run.scan, l) {
            sat_add(run.total, run.scan.buf_lines + 1)
        } else {
            run.total
        },
        scan: code_scan_step(names, run.scan, l),
    }
}

/// The correlator after the lines `lines`, in order.
pub open spec fn code_run(names: Seq<Seq<char>>, start: CodeRun, lines: Seq<Seq<char>>) -> CodeRun
    decreases lines.len(),
{
    if lines.len() == 0 {
        start
    } else {
        code_step(names, code_run(names, start, lines.drop_last()), lines.last())
    }
}

/// Appends line `l` and a line break to `buf`.
fn push_line(buf: &mut Vec<char>, l: &Vec<char>)
    ensures
        final(buf)@ == with_line(old(buf)@, l@),
{
    let mut i: usize = 0;
    let ghost start = buf@;
    while i < l.len()
        invariant
            i <= l@.len(),
            buf@ == start + l@.subrange(0, i as int),
        decreases l@.len() - i,
    {
        buf.push(l[i]);
        i = i + 1;
        assert(buf@ =~= start + l@.subrange(0, i as int));
    }
    assert(l@.subrange(0, i as int) =~= l@);
    buf.push('\n');
    assert(buf@ =~= with_line(start, l@));
}

/// Where the resolver and the stanza parser stand after some lines.
pub struct KconfigRun {
    pub names: Seq<Seq<char>>,
    pub stats: Seq<StatView>,
    pub scan: ScanView,
}

/// The state after line `l` (untrimmed), as `parse_kconfig` leaves it.
pub open spec fn kconfig_step(run: KconfigRun, l: Seq<char>) -> KconfigRun {
    KconfigRun {
        names: step_names(run.names, trim(l)),
        stats: step_stats(run.names, run.stats, run.scan, trim(l)),
        scan: step_scan(run.names, run.scan, trim(l)),
    }
}

/// The state after the lines `lines`, in order.
pub open spec fn kconfig_run(start: KconfigRun, lines: Seq<Seq<char>>) -> KconfigRun
    decreases lines.len(),
{
    if lines.len() == 0 {
        start
    } else {
        kconfig_step(kconfig_run(start, lines.drop_last()), lines.last())
    }
}

/// A table and scan state that fit together.
pub open spec fn run_ok(run: KconfigRun) -> bool {
    &&& run.names.len() == run.stats.len()
    &&& unique(run.names)
    &&& run.scan.current matches Some(i) ==> 0 <= i < run.names.len()
}

/// How often the header of `n` has been counted in `run`.
pub open spec fn count_of(run: KconfigRun, n: Seq<char>) -> nat {
    match index_of(run.names, n) {
        Some(i) => run.stats[i].count,
        None => 0,
    }
}

/// The number of lines of `lines` that are the header of component `n`.
pub open spec fn header_count(lines: Seq<Seq<char>>, n: Seq<char>) -> nat
    decreases lines.len(),
{
    if lines.len() == 0 {
        0
    } else {
        header_count(lines.drop_last(), n) + if is_stanza(trim(lines.last())) && is_header(
            trim(lines.last()),
        ) && header_name(trim(lines.last())) == n {
            1nat
        } else {
            0nat
        }
    }
}

proof fn lemma_index_push_other(s: Seq<Seq<char>>, m: Seq<char>, n: Seq<char>, i: int)
    requires
        m != n,
        0 <= i,
    ensures
        index_from(s.push(m), n, i) == index_from(s, n, i),
    decreases s.len() + 1 - i,
{
    if i < s.len() {
        lemma_index_push_other(s, m, n, i + 1);
        assert(s.push(m)[i] == s[i]);
    } else if i == s.len() {
        assert(s.push(m)[i] == m);
        assert(index_from(s.push(m), n, i + 1) is None);
    }
}

proof fn lemma_push_unique(s: Seq<Seq<char>>, n: Seq<char>)
    requires
        unique(s),
        index_of(s, n) is None,
    ensures
        unique(s.push(n)),
        index_of(s.push(n), n) == Some(s.len() as int),
{
    lemma_index_from(s, n, 0);
    assert(unique(s.push(n)));
    lemma_index_of_unique(s.push(n), n, s.len() as int, 0);
}

proof fn lemma_step_ok(run: KconfigRun, l: Seq<char>)
    requires
        run_ok(run),
    ensures
        run_ok(kconfig_step(run, l)),
{
    let t = trim(l);
    let name = header_name(t);
    lemma_index_from(run.names, name, 0);
    if is_stanza(t) && is_header(t) && index_of(run.names, name) is None {
        lemma_push_unique(run.names, name);
    }
    lemma_index_from(step_names(run.names, t), name, 0);
}

proof fn lemma_step_count(run: KconfigRun, l: Seq<char>, n: Seq<char>)
    requires
        run_ok(run),
        count_of(run, n) + (if is_stanza(trim(l)) && is_header(trim(l)) && header_name(trim(l))
            == n {
            1nat
        } else {
            0nat
        }) <= usize::MAX,
    ensures
        count_of(kconfig_step(run, l), n) == count_of(run, n) + if is_stanza(trim(l)) && is_header(
            trim(l),
        ) && header_name(trim(l)) == n {
            1nat
        } else {
            0nat
        },
{
    let t = trim(l);
    let m = header_name(t);
    let next = kconfig_step(run, l);
    lemma_index_from(run.names, n, 0);
    lemma_index_from(run.names, m, 0);
    if is_stanza(t) && is_header(t) {
        if index_of(run.names, m) is None {
            if m == n {
                lemma_push_unique(run.names, n);
            } else {
                lemma_index_push_other(run.names, m, n, 0);
            }
        } else {
            let i = index_of(run.names, m)->0;
            if m != n {
                if let Some(j) = index_of(run.names, n) {
                    assert(j != i);
                }
            }
        }
    } else if is_stanza(t) {
        let sc = step_scan(run.names, run.scan, t);
        lemma_index_from(run.names, header_name(t), 0);
        if let Some(i) = sc.current {
            if let Some(j) = index_of(run.names, n) {
                if i != j {
                    assert(next.stats[j] == run.stats[j]);
                }
            }
        }
    }
}

/// Each component's count is the number of its header lines among all lines read,
/// in whatever state the reading began: since every file starts in its own state,
/// this holds across all the files that resolution reaches, and for a component
/// first seen there it is exactly the number of its headers.
pub proof fn law_count_is_header_count(start: KconfigRun, lines: Seq<Seq<char>>, n: Seq<char>)
    requires
        run_ok(start),
        count_of(start, n) + header_count(lines, n) <= usize::MAX,
    ensures
        run_ok(kconfig_run(start, lines)),
        count_of(kconfig_run(start, lines), n) == count_of(start, n) + header_count(lines, n),
    decreases lines.len(),
{
    if lines.len() > 0 {
        law_count_is_header_count(start, lines.drop_last(), n);
        let before = kconfig_run(start, lines.drop_last());
        lemma_step_ok(before, lines.last());
        lemma_step_count(before, lines.last(), n);
    }
}

/// A `def_bool` line leaves the active component with its value as the one default
/// and a boolean type, whatever defaults it had.
pub proof fn law_def_bool(run: KconfigRun, l: Seq<char>)
    requires
        run_ok(run),
        run.scan.current is Some,
        starts_with(trim(l), "def_bool"@),
    ensures
        ({
            let i = run.scan.current->0;
            let st = kconfig_step(run, l).stats[i];
            &&& st.defaults == seq![field(trim(l), "def_bool"@)]
            &&& st.kind == KconfigComponentType::Bool
        }),
{
    let t = trim(l);
    reveal_strlit("def_bool");
    reveal_strlit("#");
    reveal_strlit("source");
    reveal_strlit("config ");
    reveal_strlit("config");
    reveal_strlit("depends on");
    reveal_strlit("bool");
    reveal_strlit("default");
    assert(t.subrange(0, 8) == "def_bool"@);
    assert(t.subrange(0, 8)[0] == 'd');
    assert(t.subrange(0, 8)[3] == '_');
    assert(!starts_with(t, "#"@)) by {
        if starts_with(t, "#"@) {
            assert(t.subrange(0, 1)[0] == '#');
        }
    }
    assert(!starts_with(t, "source"@)) by {
        if starts_with(t, "source"@) {
            assert(t.subrange(0, 6)[0] == 's');
        }
    }
    assert(!starts_with(t, "config "@)) by {
        if starts_with(t, "config "@) {
            assert(t.subrange(0, 7)[0] == 'c');
        }
    }
    assert(!starts_with(t, "config"@)) by {
        if starts_with(t, "config"@) {
            assert(t.subrange(0, 6)[0] == 'c');
        }
    }
    assert(!starts_with(t, "depends on"@)) by {
        if starts_with(t, "depends on"@) {
            assert(t.subrange(0, 10)[1] == 'e');
            assert(t.subrange(0, 8)[1] == 'e');
            assert(t.subrange(0, 10)[2] == 'p');
            assert(t.subrange(0, 8)[2] == 'f');
        }
    }
    assert(!starts_with(t, "bool"@)) by {
        if starts_with(t, "bool"@) {
            assert(t.subrange(0, 4)[0] == 'b');
        }
    }
    assert(!starts_with(t, "default"@)) by {
        if starts_with(t, "default"@) {
            assert(t.subrange(0, 7)[3] == 'a');
            assert(t.subrange(0, 8)[3] == '_');
        }
    }
}

/// The lines `ls`, each followed by a line break.
pub open spec fn text_of(ls: Seq<Seq<char>>) -> Seq<char>
    decreases ls.len(),
{
    if ls.len() == 0 {
        Seq::empty()
    } else {
        with_line(text_of(ls.drop_last()), ls.last())
    }
}

/// While a snippet is gathered, it is the text of the lines from the guard that
/// opened it up to the current line.
pub open spec fn gathering_from(
    names: Seq<Seq<char>>,
    lines: Seq<Seq<char>>,
    cs: CodeView,
    a: int,
    k: int,
) -> bool {
    &&& 0 <= a < k <= lines.len()
    &&& cs.buf == text_of(lines.subrange(a, k))
    &&& opens_guard(lines[a])
    &&& index_of(names, guard_name(lines[a])) == cs.owner
}

proof fn lemma_gathering(names: Seq<Seq<char>>, start: CodeRun, lines: Seq<Seq<char>>, k: int)
    requires
        start.scan == code_start(),
        0 <= k <= lines.len(),
    ensures
        ({
            let cs = code_run(names, start, lines.subrange(0, k)).scan;
            cs.owner is Some ==> cs.stack.len() >= 1 && exists|a: int| #[trigger]
                gathering_from(names, lines, cs, a, k)
        }),
    decreases k,
{
    if k == 0 {
        assert(lines.subrange(0, 0) =~= Seq::<Seq<char>>::empty());
    } else {
        lemma_gathering(names, start, lines, k - 1);
        assert(lines.subrange(0, k).drop_last() =~= lines.subrange(0, k - 1));
        let cs0 = code_run(names, start, lines.subrange(0, k - 1)).scan;
        let l = lines[k - 1];
        assert(lines.subrange(0, k).last() == l);
        let cs = code_scan_step(names, cs0, l);
        if cs.owner is Some {
            if cs0.owner is Some && !(closes_guard(l) && cs0.stack.len() == 1) && !(opens_guard(l)
                && cs0.stack.len() == 0) {
                let a = choose|a: int| #[trigger] gathering_from(names, lines, cs0, a, k - 1);
                assert(lines.subrange(a, k).drop_last() =~= lines.subrange(a, k - 1));
                assert(lines.subrange(a, k).last() == l);
                assert(gathering_from(names, lines, cs, a, k));
            } else {
                let a = k - 1;
                assert(opens_guard(l) && cs0.stack.len() == 0);
                assert(cs.buf == with_line(Seq::empty(), l));
                assert(lines.subrange(a, k).drop_last() =~= Seq::<Seq<char>>::empty());
                assert(text_of(lines.subrange(a, k).drop_last()) == Seq::<char>::empty());
                assert(lines.subrange(a, k).last() == l);
                assert(gathering_from(names, lines, cs, a, k));
            }
        }
    }
}

/// A snippet is recorded for a component at the line that closes the outermost
/// guard, and it is the text of the lines from the guard that opened it, naming
/// that component, through that closing line: nested guards of any name included.
/// After that line no guard is open.
pub proof fn law_snippet_spans_guard(
    names: Seq<Seq<char>>,
    start: CodeRun,
    lines: Seq<Seq<char>>,
    k: int,
)
    requires
        start.scan == code_start(),
        0 <= k < lines.len(),
        finishes(code_run(names, start, lines.subrange(0, k)).scan, lines[k]),
    ensures
        exists|a: int|
            {
            let before = code_run(names, start, lines.subrange(0, k));
            let after = code_run(names, start, lines.subrange(0, k + 1));
            let i = before.scan.owner->0;
            &&& closes_guard(lines[k])
            &&& after.scan.stack.len() == 0
            &&& after.stats == before.stats.update(
                i,
                StatView {
                    snippets: before.stats[i].snippets.push(text_of(lines.subrange(a, k + 1))),
                    ..before.stats[i]
                },
            )
            &&& 0 <= a < k
            &&& opens_guard(#[trigger] lines[a])
            &&& index_of(names, guard_name(lines[a])) == Some(i)
        },
{
    lemma_gathering(names, start, lines, k);
    assert(lines.subrange(0, k + 1).drop_last() =~= lines.subrange(0, k));
    assert(lines.subrange(0, k + 1).last() == lines[k]);
    let before = code_run(names, start, lines.subrange(0, k));
    let a = choose|a: int| #[trigger] gathering_from(names, lines, before.scan, a, k);
    assert(gathering_from(names, lines, before.scan, a, k));
    let after = code_run(names, start, lines.subrange(0, k + 1));
    assert(after == code_step(names, before, lines[k]));
    assert(lines.subrange(a, k + 1).drop_last() =~= lines.subrange(a, k));
    assert(lines.subrange(a, k + 1).last() == lines[k]);
    assert(with_line(before.scan.buf, lines[k]) == text_of(lines.subrange(a, k + 1)));
}

/// Some file of `files` lies directly in directory `d`.
pub open spec fn holds_file_of(files: Seq<Seq<char>>, d: Seq<char>) -> bool {
    exists|j: int| 0 <= j < files.len() && parent(#[trigger] files[j]) == Some(d)
}

/// The table of components, the candidate source directories and the settings of one
/// resolution.
pub struct KconfigCounter {
    arch: String,
    version: String,
    kconfig_path: String,
    root: Vec<char>,
    check_all: bool,
    names: Vec<Vec<char>>,
    stats: Vec<KconfigStat>,
    code_dir: Vec<Vec<char>>,
    total_code_lines: usize,
    resolved: Ghost<Seq<Seq<char>>>,
}

/// The models of a list of character vectors.
pub open spec fn chars_seq(v: Seq<Vec<char>>) -> Seq<Seq<char>> {
    v.map_values(|c: Vec<char>| c@)
}

impl KconfigCounter {
    /// The component names, in order of first sighting.
    pub closed spec fn names(&self) -> Seq<Seq<char>> {
        chars_seq(self.names@)
    }

    /// The records, at the positions of their names.
    pub closed spec fn stats(&self) -> Seq<StatView> {
        self.stats@.map_values(|s: KconfigStat| s@)
    }

    /// The candidate source directories, in order of discovery.
    pub closed spec fn code_dirs(&self) -> Seq<Seq<char>> {
        chars_seq(self.code_dir@)
    }

    /// Every file that the resolver was told to descend into.
    pub closed spec fn resolved(&self) -> Seq<Seq<char>> {
        self.resolved@
    }

    pub closed spec fn check_all(&self) -> bool {
        self.check_all
    }

    pub closed spec fn arch(&self) -> Seq<char> {
        self.arch@
    }

    pub closed spec fn version(&self) -> Seq<char> {
        self.version@
    }

    pub closed spec fn entry(&self) -> Seq<char> {
        self.kconfig_path@
    }

    /// The table together with the scan state `scan`, as the laws on lines see it.
    pub open spec fn run_of(&self, scan: ScanView) -> KconfigRun {
        KconfigRun { names: self.names(), stats: self.stats(), scan }
    }

    /// The lines of all snippets recorded so far.
    pub closed spec fn total_lines(&self) -> nat {
        self.total_code_lines as nat
    }

    /// The directory that `source` paths are relative to.
    pub closed spec fn root(&self) -> Seq<char> {
        self.root@
    }

    pub closed spec fn wf(&self) -> bool {
        &&& self.names@.len() == self.stats@.len()
        &&& unique(self.names())
        &&& unique(self.code_dirs())
        &&& self.root@ == kernel_root(self.kconfig_path@, self.version@)
        &&& forall|k: int|
            0 <= k < self.code_dirs().len() ==> holds_file_of(
                self.resolved@,
                #[trigger] self.code_dirs()[k],
            )
    }

    /// A counter for the entry file `kconfig_path` of architecture `arch` in kernel
    /// `version`, with nothing read yet.
    pub fn new(arch: String, version: String, kconfig_path: String) -> (r: KconfigCounter)
        ensures
            r.wf(),
            r.arch() == arch@,
            r.version() == version@,
            r.entry() == kconfig_path@,
            r.root() == kernel_root(kconfig_path@, version@),
            !r.check_all(),
            r.names().len() == 0,
            r.stats().len() == 0,
            r.code_dirs().len() == 0,
            r.resolved().len() == 0,
            r.total_lines() == 0,
    {
        let mut dir = chars_of("linux-");
        let v = chars_of(version.as_str());
        let mut i: usize = 0;
        let ghost start = dir@;
        while i < v.len()
            invariant
                i <= v@.len(),
                dir@ == start + v@.subrange(0, i as int),
            decreases v@.len() - i,
        {
            dir.push(v[i]);
            i = i + 1;
            assert(dir@ =~= start + v@.subrange(0, i as int));
        }
        assert(v@.subrange(0, i as int) =~= v@);
        let entry = chars_of(kconfig_path.as_str());
        let root = ascend_to_dir(&entry, &dir);
        let r = KconfigCounter {
            arch,
            version,
            kconfig_path,
            root,
            check_all: false,
            names: Vec::new(),
            stats: Vec::new(),
            code_dir: Vec::new(),
            total_code_lines: 0,
            resolved: Ghost(Seq::empty()),
        };
        assert(r.names() =~= Seq::<Seq<char>>::empty());
        assert(r.code_dirs() =~= Seq::<Seq<char>>::empty());
        assert(r.stats() =~= Seq::<StatView>::empty());
        r
    }

    /// Resolve every `source` target, whatever its path.
    pub fn set_check_all(&mut self)
        requires
            old(self).wf(),
        ensures
            final(self).wf(),
            final(self).check_all(),
            final(self).names() == old(self).names(),
            final(self).stats() == old(self).stats(),
            final(self).code_dirs() == old(self).code_dirs(),
            final(self).resolved() == old(self).resolved(),
            final(self).entry() == old(self).entry(),
            final(self).version() == old(self).version(),
            final(self).arch() == old(self).arch(),
            final(self).total_lines() == old(self).total_lines(),
            final(self).root() == old(self).root(),
    {
        self.check_all = true;
    }

    /// The position of `name` in the table.
    pub fn lookup(&self, name: &Vec<char>) -> (r: Option<usize>)
        requires
            self.wf(),
        ensures
            r matches Some(i) ==> index_of(self.names(), name@) == Some(i as int),
            r is None ==> index_of(self.names(), name@) is None,
    {
        let mut i: usize = 0;
        while i < self.names.len()
            invariant
                self.wf(),
                i <= self.names@.len(),
                index_of(self.names(), name@) == index_from(self.names(), name@, i as int),
            decreases self.names@.len() - i,
        {
            if same_chars(&self.names[i], name) {
                return Some(i);
            }
            i = i + 1;
        }
        None
    }

    /// Counts one sighting of the header of `name`, creating its record at the first.
    fn count_header(&mut self, name: Vec<char>) -> (r: usize)
        requires
            old(self).wf(),
        ensures
            final(self).wf(),
            final(self).names() == (if index_of(old(self).names(), name@) is None {
                old(self).names().push(name@)
            } else {
                old(self).names()
            }),
            r < final(self).names().len(),
            index_of(final(self).names(), name@) == Some(r as int),
            final(self).stats() == match index_of(old(self).names(), name@) {
                Some(i) => old(self).stats().update(i, counted(old(self).stats()[i])),
                None => old(self).stats().push(counted(fresh_stat())),
            },
            final(self).code_dirs() == old(self).code_dirs(),
            final(self).resolved() == old(self).resolved(),
            final(self).check_all() == old(self).check_all(),
            final(self).entry() == old(self).entry(),
            final(self).version() == old(self).version(),
            final(self).arch() == old(self).arch(),
            final(self).root() == old(self).root(),
            final(self).total_lines() == old(self).total_lines(),
    {
        proof {
            lemma_index_from(self.names(), name@, 0);
        }
        match self.lookup(&name) {
            Some(i) => {
                let ghost before = self.stats();
                let c = self.stats[i].count;
                self.stats[i].count = c.saturating_add(1);
                assert(self.stats() =~= before.update(i as int, counted(before[i as int])));
                i
            },
            None => {
                let ghost before = self.stats();
                let ghost names_before = self.names();
                let n = self.names.len();
                self.names.push(name);
                let st = KconfigStat {
                    default_value: Vec::new(),
                    select: Vec::new(),
                    depend: Vec::new(),
                    value_type: KconfigComponentType::Value,
                    count: 1,
                    code_snippets: Vec::new(),
                };
                assert(st.default_value.deep_view() =~= Seq::<Seq<char>>::empty());
                assert(st.select.deep_view() =~= Seq::<Seq<char>>::empty());
                assert(st.depend.deep_view() =~= Seq::<Seq<char>>::empty());
                assert(st.code_snippets.deep_view() =~= Seq::<Seq<char>>::empty());
                self.stats.push(st);
                assert(self.stats() =~= before.push(counted(fresh_stat())));
                assert(self.names() =~= names_before.push(name@));
                proof {
                    lemma_index_of_unique(self.names(), name@, n as int, 0);
                }
                n
            },
        }
    }

    /// Applies attribute line `t` (trimmed) to the record at `i`.
    fn apply_attr_at(&mut self, i: usize, t: &Vec<char>)
        requires
            old(self).wf(),
            i < old(self).names().len(),
        ensures
            final(self).wf(),
            final(self).names() == old(self).names(),
            final(self).stats() == old(self).stats().update(
                i as int,
                apply_attr(old(self).stats()[i as int], t@),
            ),
            final(self).code_dirs() == old(self).code_dirs(),
            final(self).resolved() == old(self).resolved(),
            final(self).check_all() == old(self).check_all(),
            final(self).entry() == old(self).entry(),
            final(self).version() == old(self).version(),
            final(self).arch() == old(self).arch(),
            final(self).root() == old(self).root(),
            final(self).total_lines() == old(self).total_lines(),
    {
        let ghost before = self.stats();
        let depends_on = chars_of("depends on");
        let bool_kw = chars_of("bool");
        let default_kw = chars_of("default");
        let def_bool = chars_of("def_bool");
        let select = chars_of("select");
        let ghost st0 = self.stats@[i as int];
        if starts_with_chars(t, &depends_on) {
            let v = string_of(&field_chars(t, &depends_on));
            self.stats[i].depend.push(v);
            assert(self.stats@[i as int].depend.deep_view() =~= st0.depend.deep_view().push(v@));
        } else if starts_with_chars(t, &bool_kw) {
            self.stats[i].value_type = KconfigComponentType::Bool;
        } else if starts_with_chars(t, &default_kw) {
            let v = string_of(&field_chars(t, &default_kw));
            self.stats[i].default_value.push(v);
            assert(self.stats@[i as int].default_value.deep_view() =~= st0.default_value.deep_view().push(v@));
        } else if starts_with_chars(t, &def_bool) {
            let v = string_of(&field_chars(t, &def_bool));
            self.stats[i].default_value.clear();
            self.stats[i].default_value.push(v);
            self.stats[i].value_type = KconfigComponentType::Bool;
            assert(self.stats@[i as int].default_value.deep_view() =~= seq![v@]);
        } else if starts_with_chars(t, &select) {
            let v = string_of(&field_chars(t, &select));
            self.stats[i].select.push(v);
            assert(self.stats@[i as int].select.deep_view() =~= st0.select.deep_view().push(v@));
        }
        assert(self.stats()[i as int] =~~= apply_attr(before[i as int], t@));
        assert(self.stats() =~= before.update(i as int, apply_attr(before[i as int], t@)));
    }

    /// Reads one line of a Kconfig file, with `scan` the state of that file's parse.
    /// A comment does nothing; a blank line arms the check for a bare `config`
    /// header; a `source` line gives back the path of the file it names, below the
    /// kernel root, for the caller to resolve; any other line goes to the stanza
    /// parser.
    pub fn parse_kconfig(&mut self, scan: &mut KconfigScan, line: &str) -> (r: Option<String>)
        requires
            old(self).wf(),
            old(scan)@.current matches Some(i) ==> i < old(self).names().len(),
        ensures
            final(self).wf(),
            final(scan)@.current matches Some(i) ==> i < final(self).names().len(),
            final(self).names() == step_names(old(self).names(), trim(line@)),
            final(self).stats() == step_stats(
                old(self).names(),
                old(self).stats(),
                old(scan)@,
                trim(line@),
            ),
            final(scan)@ == step_scan(old(self).names(), old(scan)@, trim(line@)),
            final(self).run_of(final(scan)@) == kconfig_step(old(self).run_of(old(scan)@), line@),
            r matches Some(p) ==> is_source(trim(line@)) && p@ == source_target(
                old(self).root(),
                trim(line@),
            ),
            r is None ==> !is_source(trim(line@)),
            final(self).code_dirs() == old(self).code_dirs(),
            final(self).resolved() == old(self).resolved(),
            final(self).check_all() == old(self).check_all(),
            final(self).entry() == old(self).entry(),
            final(self).version() == old(self).version(),
            final(self).arch() == old(self).arch(),
            final(self).root() == old(self).root(),
            final(self).total_lines() == old(self).total_lines(),
    {
        let raw = chars_of(line);
        let t = trim_chars(&raw);
        if starts_with_chars(&t, &chars_of("#")) {
            return None;
        }
        let source = chars_of("source");
        if starts_with_chars(&t, &source) {
            scan.update = false;
            let target = unquote_chars(&field_chars(&t, &source));
            let full = join_paths(&self.root, &target);
            return Some(string_of(&full));
        }
        if t.len() == 0 {
            scan.update = true;
            return None;
        }
        let config = chars_of("config");
        if starts_with_chars(&t, &chars_of("config ")) {
            let name = field_chars(&t, &config);
            let i = self.count_header(name);
            scan.current = Some(i);
            scan.update = false;
            return None;
        }
        if scan.update && starts_with_chars(&t, &config) {
            let name = field_chars(&t, &config);
            proof {
                lemma_index_from(self.names(), name@, 0);
            }
            scan.current = self.lookup(&name);
        }
        scan.update = false;
        match scan.current {
            Some(i) => {
                self.apply_attr_at(i, &t);
            },
            None => {},
        }
        None
    }

    /// Takes the resolved path of a `source` target: where the resolver's policy
    /// lets it in, records the file's directory as a candidate source directory
    /// and answers `true`, and the caller then reads that file.
    pub fn enter_source(&mut self, path: &str) -> (r: bool)
        requires
            old(self).wf(),
        ensures
            final(self).wf(),
            r == descends(old(self).check_all(), path@),
            final(self).code_dirs() == (if r {
                add_dir(old(self).code_dirs(), path@)
            } else {
                old(self).code_dirs()
            }),
            final(self).resolved() == (if r {
                old(self).resolved().push(path@)
            } else {
                old(self).resolved()
            }),
            final(self).names() == old(self).names(),
            final(self).stats() == old(self).stats(),
            final(self).check_all() == old(self).check_all(),
            final(self).entry() == old(self).entry(),
            final(self).version() == old(self).version(),
            final(self).arch() == old(self).arch(),
            final(self).root() == old(self).root(),
            final(self).total_lines() == old(self).total_lines(),
    {
        let p = chars_of(path);
        let descend = self.check_all || contains_chars(&p, &chars_of("/arch/"));
        if !descend {
            return false;
        }
        let ghost old_res = self.resolved@;
        let ghost old_dirs = self.code_dirs();
        self.resolved = Ghost(self.resolved@.push(p@));
        assert forall|k: int| 0 <= k < old_dirs.len() implies holds_file_of(
            self.resolved@,
            #[trigger] old_dirs[k],
        ) by {
            assert(holds_file_of(old_res, old_dirs[k]));
            let j = choose|j: int| 0 <= j < old_res.len() && parent(#[trigger] old_res[j]) == Some(old_dirs[k]);
            assert(self.resolved@[j] == old_res[j]);
        }
        match parent_of(&p) {
            Some(d) => {
                let mut k: usize = 0;
                let mut found = false;
                while k < self.code_dir.len() && !found
                    invariant
                        k <= self.code_dir@.len(),
                        self.code_dirs() == old_dirs,
                        found ==> k < old_dirs.len() && old_dirs[k as int] == d@,
                        !found ==> forall|m: int| 0 <= m < k ==> old_dirs[m] != d@,
                    decreases self.code_dir@.len() - k + (if found { 0int } else { 1int }),
                {
                    if same_chars(&self.code_dir[k], &d) {
                        found = true;
                    } else {
                        k = k + 1;
                    }
                }
                if found {
                    assert(old_dirs.contains(d@));
                } else {
                    assert(!old_dirs.contains(d@));
                    self.code_dir.push(d);
                    assert(self.code_dirs() =~= old_dirs.push(d@));
                    assert(holds_file_of(self.resolved@, d@)) by {
                        assert(parent(self.resolved@[old_res.len() as int]) == Some(d@));
                    }
                }
            },
            None => {},
        }
        true
    }

    /// Scans the lines of one C file and, for each outermost guard that names a
    /// known component, records the text from its opening line through the line
    /// that closes it as a snippet of that component. Gives
    /// back how many guards were still open at the end of the file; a snippet in
    /// progress there is dropped.
    pub fn parse_code(&mut self, lines: &Vec<String>) -> (r: usize)
        requires
            old(self).wf(),
        ensures
            final(self).wf(),
            ({
                let run = code_run(
                    old(self).names(),
                    CodeRun {
                        stats: old(self).stats(),
                        total: old(self).total_lines(),
                        scan: code_start(),
                    },
                    lines.deep_view(),
                );
                &&& final(self).stats() == run.stats
                &&& final(self).total_lines() == run.total
                &&& r == run.scan.stack.len()
            }),
            final(self).names() == old(self).names(),
            final(self).code_dirs() == old(self).code_dirs(),
            final(self).resolved() == old(self).resolved(),
            final(self).check_all() == old(self).check_all(),
            final(self).entry() == old(self).entry(),
            final(self).version() == old(self).version(),
            final(self).arch() == old(self).arch(),
            final(self).root() == old(self).root(),
    {
        let ifdef_kw = chars_of("#ifdef CONFIG_");
        let endif_kw = chars_of("#endif");
        let ghost names = self.names();
        let ghost start = CodeRun {
            stats: self.stats(),
            total: self.total_lines(),
            scan: code_start(),
        };
        let mut stack: Vec<Vec<char>> = Vec::new();
        let mut owner: Option<usize> = None;
        let mut buf: Vec<char> = Vec::new();
        let mut buf_lines: usize = 0;
        let mut k: usize = 0;
        assert(lines.deep_view().subrange(0, 0) =~= Seq::<Seq<char>>::empty());
        assert(chars_seq(stack@) =~= Seq::<Seq<char>>::empty());
        while k < lines.len()
            invariant
                self.wf(),
                k <= lines@.len(),
                ifdef_kw@ == "#ifdef CONFIG_"@,
                endif_kw@ == "#endif"@,
                self.names() == names,
                old(self).names() == names,
                self.code_dirs() == old(self).code_dirs(),
                self.resolved() == old(self).resolved(),
                self.check_all() == old(self).check_all(),
                self.entry() == old(self).entry(),
                self.version() == old(self).version(),
                self.arch() == old(self).arch(),
                self.root() == old(self).root(),
                start.stats == old(self).stats(),
                start.total == old(self).total_lines(),
                start.scan == code_start(),
                buf_lines <= k,
                owner matches Some(i) ==> i < names.len() && stack@.len() >= 1,
                code_run(names, start, lines.deep_view().subrange(0, k as int)) == (CodeRun {
                    stats: self.stats(),
                    total: self.total_lines(),
                    scan: CodeView {
                        stack: chars_seq(stack@),
                        owner: match owner {
                            Some(i) => Some(i as int),
                            None => None,
                        },
                        buf: buf@,
                        buf_lines: buf_lines as nat,
                    },
                }),
            decreases lines@.len() - k,
        {
            let ghost prefix = lines.deep_view().subrange(0, k as int);
            assert(lines.deep_view().subrange(0, k + 1).drop_last() =~= prefix);
            let l = chars_of(lines[k].as_str());
            assert(lines.deep_view().subrange(0, k + 1).last() == l@);
            let ghost stats0 = self.stats();
            let ghost stack0 = chars_seq(stack@);
            let ghost run0 = code_run(names, start, prefix);
            assert(code_run(names, start, lines.deep_view().subrange(0, k + 1)) == code_step(
                names,
                run0,
                l@,
            ));
            if contains_chars(&l, &ifdef_kw) {
                let g = field_chars(&trim_chars(&l), &ifdef_kw);
                if stack.len() == 0 {
                    proof {
                        lemma_index_from(names, g@, 0);
                    }
                    match self.lookup(&g) {
                        Some(i) => {
                            owner = Some(i);
                            buf = Vec::new();
                            push_line(&mut buf, &l);
                            buf_lines = 1;
                        },
                        None => {},
                    }
                } else if owner.is_some() {
                    push_line(&mut buf, &l);
                    buf_lines = buf_lines + 1;
                }
                stack.push(g);
                assert(chars_seq(stack@) =~= stack0.push(g@));
                assert(stack0.len() == 0 ==> stack0.push(g@) =~= seq![g@]);
            } else if contains_chars(&l, &endif_kw) {
                if stack.len() == 1 {
                    match owner {
                        Some(i) => {
                            let ghost gathered = buf@;
                            push_line(&mut buf, &l);
                            let snippet = string_of(&buf);
                            self.stats[i].code_snippets.push(snippet);
                            self.total_code_lines = self.total_code_lines.saturating_add(
                                buf_lines + 1,
                            );
                            assert(self.stats@[i as int].code_snippets.deep_view() =~= stats0[i as int].snippets.push(with_line(gathered, l@)));
                            assert(self.stats() =~= stats0.update(
                                i as int,
                                StatView {
                                    snippets: stats0[i as int].snippets.push(with_line(gathered, l@)),
                                    ..stats0[i as int]
                                },
                            ));
                        },
                        None => {},
                    }
                    owner = None;
                    buf = Vec::new();
                    buf_lines = 0;
                    stack.pop();
                    assert(chars_seq(stack@) =~= Seq::<Seq<char>>::empty());
                    assert(buf@ =~= Seq::<char>::empty());
                } else if stack.len() > 1 {
                    stack.pop();
                    assert(chars_seq(stack@) =~= stack0.drop_last());
                    if owner.is_some() {
                        push_line(&mut buf, &l);
                        buf_lines = buf_lines + 1;
                    }
                }
            } else if owner.is_some() {
                push_line(&mut buf, &l);
                buf_lines = buf_lines + 1;
            }
            k = k + 1;
        }
        assert(lines.deep_view().subrange(0, k as int) =~= lines.deep_view());
        stack.len()
    }

    /// Reads one C file, named `file_name`, of a candidate source directory: a file
    /// whose extension is `c` or `h` goes through `parse_code`, and its count of
    /// guards left open comes back; any other file is left alone.
    pub fn analyze_code(&mut self, file_name: &str, lines: &Vec<String>) -> (r: Option<usize>)
        requires
            old(self).wf(),
        ensures
            final(self).wf(),
            r is Some == is_code_file_name(file_name@),
            is_code_file_name(file_name@) ==> ({
                let run = code_run(
                    old(self).names(),
                    CodeRun {
                        stats: old(self).stats(),
                        total: old(self).total_lines(),
                        scan: code_start(),
                    },
                    lines.deep_view(),
                );
                &&& final(self).stats() == run.stats
                &&& final(self).total_lines() == run.total
                &&& r == Some(run.scan.stack.len() as usize)
            }),
            !is_code_file_name(file_name@) ==> final(self).stats() == old(self).stats()
                && final(self).total_lines() == old(self).total_lines(),
            final(self).names() == old(self).names(),
            final(self).code_dirs() == old(self).code_dirs(),
            final(self).resolved() == old(self).resolved(),
            final(self).check_all() == old(self).check_all(),
            final(self).entry() == old(self).entry(),
            final(self).version() == old(self).version(),
            final(self).arch() == old(self).arch(),
            final(self).root() == old(self).root(),
    {
        if is_code_file(file_name) {
            Some(self.parse_code(lines))
        } else {
            None
        }
    }

    /// The number of distinct components seen.
    pub fn total_components(&self) -> (r: usize)
        requires
            self.wf(),
        ensures
            r == self.names().len(),
    {
        self.names.len()
    }

    /// The number of lines in all recorded snippets.
    pub fn total_code_lines(&self) -> (r: usize)
        ensures
            r == self.total_lines(),
    {
        self.total_code_lines
    }

    /// The component names, in order of first sighting.
    pub fn component_names(&self) -> (r: Vec<String>)
        ensures
            r.deep_view() == self.names(),
    {
        let mut r: Vec<String> = Vec::new();
        let mut i: usize = 0;
        while i < self.names.len()
            invariant
                i <= self.names@.len(),
                r.deep_view() == self.names().subrange(0, i as int),
            decreases self.names@.len() - i,
        {
            let ghost before = r.deep_view();
            let v = string_of(&self.names[i]);
            r.push(v);
            assert(r.deep_view() =~= before.push(v@));
            assert(self.names()[i as int] == v@);
            i = i + 1;
            assert(r.deep_view() =~= self.names().subrange(0, i as int));
        }
        assert(self.names().subrange(0, i as int) =~= self.names());
        r
    }

    /// The candidate source directories, in order of discovery.
    pub fn code_dir_list(&self) -> (r: Vec<String>)
        ensures
            r.deep_view() == self.code_dirs(),
    {
        let mut r: Vec<String> = Vec::new();
        let mut i: usize = 0;
        while i < self.code_dir.len()
            invariant
                i <= self.code_dir@.len(),
                r.deep_view() == self.code_dirs().subrange(0, i as int),
            decreases self.code_dir@.len() - i,
        {
            let ghost before = r.deep_view();
            let v = string_of(&self.code_dir[i]);
            r.push(v);
            assert(r.deep_view() =~= before.push(v@));
            assert(self.code_dirs()[i as int] == v@);
            i = i + 1;
            assert(r.deep_view() =~= self.code_dirs().subrange(0, i as int));
        }
        assert(self.code_dirs().subrange(0, i as int) =~= self.code_dirs());
        r
    }

    /// The record of component `name`, if it was seen.
    pub fn stat(&self, name: &str) -> (r: Option<&KconfigStat>)
        requires
            self.wf(),
        ensures
            r matches Some(st) ==> index_of(self.names(), name@) matches Some(i) && st@
                == self.stats()[i],
            r is None ==> index_of(self.names(), name@) is None,
    {
        let n = chars_of(name);
        proof {
            lemma_index_from(self.names(), n@, 0);
        }
        match self.lookup(&n) {
            Some(i) => Some(&self.stats[i]),
            None => None,
        }
    }

    /// The architecture that this counter resolves.
    pub fn arch_name(&self) -> (r: &String)
        ensures
            r@ == self.arch(),
    {
        &self.arch
    }

    /// The kernel version that this counter resolves.
    pub fn kernel_version(&self) -> (r: &String)
        ensures
            r@ == self.version(),
    {
        &self.version
    }
}

/// Every candidate source directory is the directory of a file that the resolver
/// descended into.
pub proof fn law_dirs_hold_resolved_files(kc: &KconfigCounter)
    requires
        kc.wf(),
    ensures
        forall|k: int|
            0 <= k < kc.code_dirs().len() ==> holds_file_of(kc.resolved(), #[trigger] kc.code_dirs()[k]),
{
}

/// A well-formed counter has as many records as names and no name twice, so
/// with a scan state whose component lies in its table it is a run that the laws
/// on lines apply to.
pub proof fn lemma_counter_run_ok(kc: &KconfigCounter, scan: ScanView)
    requires
        kc.wf(),
        scan.current matches Some(i) ==> 0 <= i < kc.names().len(),
    ensures
        kc.names().len() == kc.stats().len(),
        unique(kc.names()),
        run_ok(kc.run_of(scan)),
{
}

/// A C or header file name: its extension is `c` or `h`.
pub open spec fn is_code_file_name(name: Seq<char>) -> bool {
    extension(name) == Some(seq!['c']) || extension(name) == Some(seq!['h'])
}

/// Whether file `name` is a C or header file.
pub fn is_code_file(name: &str) -> (r: bool)
    ensures
        r == is_code_file_name(name@),
{
    let n = chars_of(name);
    match extension_of(&n) {
        Some(e) => {
            let c = e.len() == 1 && e[0] == 'c';
            let h = e.len() == 1 && e[0] == 'h';
            proof {
                if e@.len() == 1 {
                    if e@[0] == 'c' {
                        assert(e@ =~= seq!['c']);
                    }
                    if e@[0] == 'h' {
                        assert(e@ =~= seq!['h']);
                    }
                }
            }
            c || h
        },
        None => false,
    }
}

} // verus!
