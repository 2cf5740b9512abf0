use vstd::prelude::*;

verus! {

/// The position of the last `/` in `p`.
pub open spec fn last_slash(p: Seq<char>) -> Option<int>
    decreases p.len(),
{
    if p.len() == 0 {
        None
    } else if p.last() == '/' {
        Some(p.len() - 1)
    } else {
        last_slash(p.drop_last())
    }
}

/// The directory that holds `p`: `None` for the root and for the empty path.
pub open spec fn parent(p: Seq<char>) -> Option<Seq<char>> {
    if p.len() == 0 || p == seq!['/'] {
        None
    } else {
        match last_slash(p) {
            Some(i) => if i == 0 {
                Some(seq!['/'])
            } else {
                Some(p.subrange(0, i))
            },
            None => Some(Seq::empty()),
        }
    }
}

/// The last component of `p`: what follows its last `/`.
pub open spec fn last_component(p: Seq<char>) -> Seq<char> {
    match last_slash(p) {
        Some(i) => p.subrange(i + 1, p.len() as int),
        None => p,
    }
}

/// The nearest directory above `p` whose own name is `dir`; where none is, the
/// topmost directory above `p`.
pub open spec fn ascend_to(p: Seq<char>, dir: Seq<char>) -> Seq<char>
    decreases p.len(),
{
    match parent(p) {
        None => p,
        Some(q) => if q.len() >= p.len() {
            p
        } else if last_component(q) == dir {
            q
        } else {
            ascend_to(q, dir)
        },
    }
}

/// `rel` appended to `base` as a path: an absolute `rel` stands alone.
pub open spec fn join(base: Seq<char>, rel: Seq<char>) -> Seq<char> {
    if rel.len() > 0 && rel[0] == '/' {
        rel
    } else if base.len() == 0 {
        rel
    } else if base.last() == '/' {
        base + rel
    } else {
        base + seq!['/'] + rel
    }
}

/// A parent is shorter than its path, and `last_slash` points at a `/`.
pub proof fn lemma_parent_shorter(p: Seq<char>)
    ensures
        parent(p) matches Some(q) ==> q.len() < p.len(),
        last_slash(p) matches Some(i) ==> 0 <= i < p.len() && p[i] == '/',
    decreases p.len(),
{
    if p.len() > 0 && p.last() != '/' {
        lemma_parent_shorter(p.drop_last());
    }
    if p.len() == 1 && p[0] == '/' {
        assert(p =~= seq!['/']);
    }
}

/// The position of the last `/` in `p`.
pub fn last_slash_of(p: &Vec<char>) -> (r: Option<usize>)
    ensures
        r matches Some(i) ==> last_slash(p@) == Some(i as int),
        r is None ==> last_slash(p@) is None,
{
    let mut k: usize = p.len();
    assert(p@.subrange(0, k as int) =~= p@);
    while k > 0
        invariant
            k <= p@.len(),
            last_slash(p@) == last_slash(p@.subrange(0, k as int)),
        decreases k,
    {
        assert(p@.subrange(0, k as int).drop_last() =~= p@.subrange(0, k - 1));
        if p[k - 1] == '/' {
            return Some(k - 1);
        }
        k = k - 1;
    }
    None
}

/// The directory that holds `p`.
pub fn parent_of(p: &Vec<char>) -> (r: Option<Vec<char>>)
    ensures
        r matches Some(q) ==> parent(p@) == Some(q@),
        r is None ==> parent(p@) is None,
{
    proof {
        lemma_parent_shorter(p@);
    }
    if p.len() == 0 || (p.len() == 1 && p[0] == '/') {
        proof {
            if p.len() == 1 {
                assert(p@ =~= seq!['/']);
            }
        }
        return None;
    }
    assert(p@ != seq!['/']);
    match last_slash_of(p) {
        Some(i) => {
            if i == 0 {
                Some(vec!['/'])
            } else {
                Some(crate::text::slice(p, 0, i))
            }
        },
        None => Some(Vec::new()),
    }
}

/// The last component of `p`.
pub fn last_component_of(p: &Vec<char>) -> (r: Vec<char>)
    ensures
        r@ == last_component(p@),
{
    proof {
        lemma_parent_shorter(p@);
    }
    let n = p.len();
    assert(p@.subrange(0, n as int) =~= p@);
    match last_slash_of(p) {
        Some(i) => crate::text::slice(p, i + 1, n),
        None => crate::text::slice(p, 0, n),
    }
}

/// The nearest directory above `p` named `dir`, else the topmost one.
pub fn ascend_to_dir(p: &Vec<char>, dir: &Vec<char>) -> (r: Vec<char>)
    ensures
        r@ == ascend_to(p@, dir@),
{
    let mut cur: Vec<char> = crate::text::slice(p, 0, p.len());
    assert(cur@ =~= p@);
    loop
        invariant
            ascend_to(p@, dir@) == ascend_to(cur@, dir@),
        decreases cur@.len(),
    {
        proof {
            lemma_parent_shorter(cur@);
        }
        match parent_of(&cur) {
            None => {
                return cur;
            },
            Some(q) => {
                let name = last_component_of(&q);
                if crate::text::same_chars(&name, dir) {
                    return q;
                }
                cur = q;
            },
        }
    }
}

/// `rel` appended to `base` as a path.
pub fn join_paths(base: &Vec<char>, rel: &Vec<char>) -> (r: Vec<char>)
    ensures
        r@ == join(base@, rel@),
{
    if rel.len() > 0 && rel[0] == '/' {
        return crate::text::slice(rel, 0, rel.len());
    }
    let mut r: Vec<char> = crate::text::slice(base, 0, base.len());
    if base.len() > 0 && base[base.len() - 1] != '/' {
        r.push('/');
    }
    let mut i: usize = 0;
    let ghost start = r@;
    while i < rel.len()
        invariant
            i <= rel@.len(),
            r@ == start + rel@.subrange(0, i as int),
        decreases rel@.len() - i,
    {
        r.push(rel[i]);
        i = i + 1;
        assert(r@ =~= start + rel@.subrange(0, i as int));
    }
    assert(rel@.subrange(0, i as int) =~= rel@);
    assert(base@.subrange(0, base@.len() as int) =~= base@);
    r
}

/// The position of the last `.` in `name`.
pub open spec fn last_dot(name: Seq<char>) -> Option<int>
    decreases name.len(),
{
    if name.len() == 0 {
        None
    } else if name.last() == '.' {
        Some(name.len() - 1)
    } else {
        last_dot(name.drop_last())
    }
}

/// The extension of file name `name`: what follows its last `.`, where that dot is
/// not the name's first character.
pub open spec fn extension(name: Seq<char>) -> Option<Seq<char>> {
    match last_dot(name) {
        Some(i) => if i > 0 {
            Some(name.subrange(i + 1, name.len() as int))
        } else {
            None
        },
        None => None,
    }
}

proof fn lemma_last_dot(p: Seq<char>)
    ensures
        last_dot(p) matches Some(i) ==> 0 <= i < p.len() && p[i] == '.',
    decreases p.len(),
{
    if p.len() > 0 && p.last() != '.' {
        lemma_last_dot(p.drop_last());
    }
}

/// The extension of file name `name`.
pub fn extension_of(name: &Vec<char>) -> (r: Option<Vec<char>>)
    ensures
        r matches Some(e) ==> extension(name@) == Some(e@),
        r is None ==> extension(name@) is None,
{
    proof {
        lemma_last_dot(name@);
    }
    let n = name.len();
    let mut k: usize = n;
    assert(name@.subrange(0, k as int) =~= name@);
    while k > 0
        invariant
            k <= name@.len() == n,
            last_dot(name@) == last_dot(name@.subrange(0, k as int)),
        decreases k,
    {
        assert(name@.subrange(0, k as int).drop_last() =~= name@.subrange(0, k - 1));
        if name[k - 1] == '.' {
            if k - 1 > 0 {
                return Some(crate::text::slice(name, k, n));
            } else {
                return None;
            }
        }
        k = k - 1;
    }
    None
}

} // verus!
