//! Where an archive entry is written when an AAR is unpacked, and the
//! refusal of entries that would land outside the unpack directory.
use vstd::prelude::*;

use crate::error::ErrorKind;
use crate::resolver::join_path;
use crate::text::{chars_of, push_all, string_of};

verus! {

/// A path component that names a child: not empty, not `.`, not `..`.
pub open spec fn normal_component(c: Seq<char>) -> bool {
    c.len() > 0 && c != seq!['.'] && c != seq!['.', '.'] && !c.contains('/')
}

/// The components so far after one more component `c`: empty and `.` are
/// skipped, `..` removes the last one (failing at the top), others are added.
pub open spec fn push_component(st: Option<Seq<Seq<char>>>, c: Seq<char>) -> Option<
    Seq<Seq<char>>,
> {
    match st {
        None => None,
        Some(s) => if c.len() == 0 || c == seq!['.'] {
            Some(s)
        } else if c == seq!['.', '.'] {
            if s.len() == 0 {
                None
            } else {
                Some(s.drop_last())
            }
        } else {
            Some(s.push(c))
        },
    }
}

/// Backslashes read as slashes.
pub open spec fn slashed(c: char) -> char {
    if c == '\\' {
        '/'
    } else {
        c
    }
}

/// The state after the first `k` characters of an entry name: the
/// components resolved so far (nothing once the name has left the
/// directory) and the component being read.
pub open spec fn walk_name(n: Seq<char>, k: int) -> (Option<Seq<Seq<char>>>, Seq<char>)
    decreases k,
{
    if k <= 0 {
        (Some(Seq::empty()), Seq::empty())
    } else {
        let (st, cur) = walk_name(n, k - 1);
        if slashed(n[k - 1]) == '/' {
            (push_component(st, cur), Seq::empty())
        } else {
            (st, cur.push(n[k - 1]))
        }
    }
}

/// The components an entry name resolves to inside the unpack directory,
/// or nothing when it is absolute or climbs out of it.
pub open spec fn entry_components(n: Seq<char>) -> Option<Seq<Seq<char>>> {
    if n.len() > 0 && slashed(n[0]) == '/' {
        None
    } else {
        let (st, cur) = walk_name(n, n.len() as int);
        push_component(st, cur)
    }
}

/// Components joined by `/`.
pub open spec fn joined(cs: Seq<Seq<char>>) -> Seq<char>
    decreases cs.len(),
{
    if cs.len() == 0 {
        Seq::empty()
    } else if cs.len() == 1 {
        cs[0]
    } else {
        joined(cs.drop_last()) + seq!['/'] + cs.last()
    }
}

pub open spec fn all_normal(cs: Seq<Seq<char>>) -> bool {
    forall|i: int| 0 <= i < cs.len() ==> normal_component(#[trigger] cs[i])
}

proof fn lemma_push_normal(st: Option<Seq<Seq<char>>>, c: Seq<char>)
    requires
        st matches Some(s) ==> all_normal(s),
        !c.contains('/'),
    ensures
        push_component(st, c) matches Some(s) ==> all_normal(s),
{
    match st {
        Some(s) => {
            if !(c.len() == 0 || c == seq!['.']) && c != seq!['.', '.'] {
                assert forall|i: int| 0 <= i < s.push(c).len() implies normal_component(
                    #[trigger] s.push(c)[i],
                ) by {
                    if i < s.len() {
                        assert(s.push(c)[i] == s[i]);
                    }
                }
            } else if c == seq!['.', '.'] && s.len() > 0 {
                assert forall|i: int| 0 <= i < s.drop_last().len() implies normal_component(
                    #[trigger] s.drop_last()[i],
                ) by {
                    assert(s.drop_last()[i] == s[i]);
                }
            }
        },
        None => {},
    }
}

proof fn lemma_walk_normal(n: Seq<char>, k: int)
    requires
        0 <= k <= n.len(),
    ensures
        walk_name(n, k).0 matches Some(s) ==> all_normal(s),
        !walk_name(n, k).1.contains('/'),
    decreases k,
{
    if k > 0 {
        lemma_walk_normal(n, k - 1);
        let (st, cur) = walk_name(n, k - 1);
        if slashed(n[k - 1]) == '/' {
            lemma_push_normal(st, cur);
            assert(!Seq::<char>::empty().contains('/'));
        } else {
            assert forall|i: int| 0 <= i < cur.push(n[k - 1]).len() implies #[trigger] cur.push(
                n[k - 1],
            )[i] != '/' by {
                if i < cur.len() {
                    assert(cur.push(n[k - 1])[i] == cur[i]);
                }
            }
        }
    } else {
        assert(!Seq::<char>::empty().contains('/'));
    }
}

/// An archive entry never leaves the unpack directory: every accepted name
/// resolves to components that each name a child (none empty, `.` or `..`,
/// none holding a separator), so the written path is a descendant of the
/// directory.
pub proof fn lemma_entry_stays_inside(n: Seq<char>)
    ensures
        entry_components(n) matches Some(cs) ==> all_normal(cs),
{
    if !(n.len() > 0 && slashed(n[0]) == '/') {
        lemma_walk_normal(n, n.len() as int);
        let (st, cur) = walk_name(n, n.len() as int);
        lemma_push_normal(st, cur);
    }
}

fn push_comp(st: Option<Vec<Vec<char>>>, c: &Vec<char>) -> (r: Option<Vec<Vec<char>>>)
    ensures
        opt_comps(r) == push_component(opt_comps(st), c@),
{
    match st {
        None => None,
        Some(mut s) => {
            let ghost s0 = comps(s@);
            if c.len() == 0 || (c.len() == 1 && c[0] == '.') {
                proof {
                    if c.len() == 1 {
                        assert(c@ =~= seq!['.']);
                    }
                }
                Some(s)
            } else if c.len() == 2 && c[0] == '.' && c[1] == '.' {
                assert(c@ =~= seq!['.', '.']);
                if s.len() == 0 {
                    None
                } else {
                    s.pop();
                    assert(comps(s@) =~= s0.drop_last());
                    Some(s)
                }
            } else {
                assert(c@ != seq!['.']);
                assert(c@ != seq!['.', '.']);
                s.push(crate::text::slice(c, 0, c.len()));
                assert(c@.subrange(0, c@.len() as int) =~= c@);
                assert(comps(s@) =~= s0.push(c@));
                Some(s)
            }
        },
    }
}

pub open spec fn comps(v: Seq<Vec<char>>) -> Seq<Seq<char>> {
    v.map_values(|c: Vec<char>| c@)
}

pub open spec fn opt_comps(o: Option<Vec<Vec<char>>>) -> Option<Seq<Seq<char>>> {
    match o {
        Some(v) => Some(comps(v@)),
        None => None,
    }
}

/// The path an entry named `raw_name` is written to under `out_dir`, or
/// `UnsafeArchivePath` when the name is absolute or climbs out of it.
pub fn entry_path(out_dir: &str, raw_name: &str) -> (r: Result<String, ErrorKind>)
    ensures
        match entry_components(raw_name@) {
            Some(cs) => r matches Ok(p) && p@ == join_path(out_dir@, joined(cs)),
            None => r == Err::<String, ErrorKind>(ErrorKind::UnsafeArchivePath),
        },
{
    let n = chars_of(raw_name);
    if n.len() > 0 && (n[0] == '/' || n[0] == '\\') {
        return Err(ErrorKind::UnsafeArchivePath);
    }
    let top: Vec<Vec<char>> = Vec::new();
    assert(comps(top@) =~= Seq::<Seq<char>>::empty());
    let mut st: Option<Vec<Vec<char>>> = Some(top);
    let mut cur: Vec<char> = Vec::new();
    let mut i: usize = 0;
    assert(cur@ =~= Seq::<char>::empty());
    while i < n.len()
        invariant
            i <= n.len(),
            n@ == raw_name@,
            walk_name(n@, i as int) == (opt_comps(st), cur@),
        decreases n.len() - i,
    {
        let c = n[i];
        if c == '/' || c == '\\' {
            st = push_comp(st, &cur);
            cur = Vec::new();
            assert(cur@ =~= Seq::<char>::empty());
        } else {
            cur.push(c);
        }
        i = i + 1;
    }
    match push_comp(st, &cur) {
        None => Err(ErrorKind::UnsafeArchivePath),
        Some(cs) => {
            let mut rel: Vec<char> = Vec::new();
            let mut k: usize = 0;
            while k < cs.len()
                invariant
                    k <= cs.len(),
                    rel@ == joined(comps(cs@).take(k as int)),
                decreases cs.len() - k,
            {
                let ghost prev = comps(cs@).take(k as int);
                if k > 0 {
                    rel.push('/');
                }
                push_all(&mut rel, &cs[k]);
                let ghost next = comps(cs@).take(k + 1);
                assert(next.drop_last() =~= prev);
                if k == 0 {
                    assert(rel@ =~= next[0]);
                }
                k = k + 1;
            }
            assert(comps(cs@).take(k as int) =~= comps(cs@));
            Ok(crate::resolver::join(out_dir, &string_of(&rel)))
        },
    }
}

} // verus!
