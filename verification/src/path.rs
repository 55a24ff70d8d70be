//! Paths as sequences of component names separated by `/`.
use vstd::prelude::*;
use crate::text::chars_of;

verus! {

broadcast use vstd::string::group_string_axioms;

/// The component names of `s` after the partial name `cur`: the non-empty
/// pieces between `/` separators.
pub open spec fn components_from(s: Seq<char>, cur: Seq<char>) -> Seq<Seq<char>>
    decreases s.len(),
{
    if s.len() == 0 {
        if cur.len() > 0 {
            seq![cur]
        } else {
            Seq::empty()
        }
    } else if s[0] == '/' {
        (if cur.len() > 0 {
            seq![cur]
        } else {
            Seq::empty()
        }) + components_from(s.drop_first(), Seq::empty())
    } else {
        components_from(s.drop_first(), cur.push(s[0]))
    }
}

/// The component names of the path `s`: the non-empty pieces between `/`
/// separators, so that repeated and trailing separators count for nothing.
pub open spec fn components(s: Seq<char>) -> Seq<Seq<char>> {
    components_from(s, Seq::empty())
}

/// The path starts at the root.
pub open spec fn is_absolute(s: Seq<char>) -> bool {
    s.len() > 0 && s[0] == '/'
}

/// The names joined with single `/` separators.
pub open spec fn join_components(c: Seq<Seq<char>>) -> Seq<char>
    decreases c.len(),
{
    if c.len() == 0 {
        Seq::empty()
    } else if c.len() == 1 {
        c[0]
    } else {
        join_components(c.drop_last()) + seq!['/'] + c.last()
    }
}

/// The path that leads from `base` to `full`, as `Path::strip_prefix` gives it:
/// defined when both are absolute or both relative and the components of
/// `base` begin those of `full`; it is then the remaining components.
pub open spec fn strip_path_prefix(full: Seq<char>, base: Seq<char>) -> Option<Seq<char>> {
    let cf = components(full);
    let cb = components(base);
    if is_absolute(full) == is_absolute(base) && cb.len() <= cf.len() && cf.subrange(
        0,
        cb.len() as int,
    ) == cb {
        Some(join_components(cf.skip(cb.len() as int)))
    } else {
        None
    }
}

/// The views of a vector of strings.
pub open spec fn views(v: Seq<String>) -> Seq<Seq<char>> {
    v.map_values(|x: String| x@)
}

/// The component names of `s`, in order.
pub fn path_components(s: &str) -> (r: Vec<String>)
    ensures
        views(r@) == components(s@),
{
    let v = chars_of(s);
    let ghost t = s@;
    let n = v.len();
    let mut r: Vec<String> = Vec::new();
    let mut start: usize = 0;
    let mut i: usize = 0;
    assert(t.skip(0) =~= t);
    assert(t.subrange(0, 0) =~= Seq::<char>::empty());
    while i < n
        invariant
            v@ == t,
            t == s@,
            n == t.len(),
            start <= i <= n,
            components(t) == views(r@) + components_from(
                t.skip(i as int),
                t.subrange(start as int, i as int),
            ),
        decreases n - i,
    {
        let ghost cur = t.subrange(start as int, i as int);
        let ghost before = r@;
        assert(t.skip(i as int).drop_first() =~= t.skip(i + 1));
        assert(t.skip(i as int)[0] == t[i as int]);
        if v[i] == '/' {
            let ghost head: Seq<Seq<char>> = if cur.len() > 0 {
                seq![cur]
            } else {
                Seq::empty()
            };
            if start < i {
                let piece = String::from_str(s.substring_char(start, i));
                r.push(piece);
                assert(views(r@) =~= views(before) + seq![cur]);
            } else {
                assert(views(before) + head =~= views(before));
            }
            assert(views(before) + (head + components_from(t.skip(i + 1), Seq::empty()))
                =~= (views(before) + head) + components_from(t.skip(i + 1), Seq::empty()));
            start = i + 1;
            assert(t.subrange(start as int, start as int) =~= Seq::<char>::empty());
        } else {
            assert(cur.push(t[i as int]) =~= t.subrange(start as int, i + 1));
        }
        i = i + 1;
    }
    let ghost before = r@;
    let ghost cur = t.subrange(start as int, n as int);
    assert(t.skip(n as int) =~= Seq::<char>::empty());
    if start < n {
        let piece = String::from_str(s.substring_char(start, n));
        r.push(piece);
        assert(views(r@) =~= views(before) + seq![cur]);
    } else {
        assert(views(before) + Seq::<Seq<char>>::empty() =~= views(before));
    }
    r
}

/// Whether `s` starts at the root.
pub fn is_absolute_path(s: &str) -> (r: bool)
    ensures
        r == is_absolute(s@),
{
    let v = chars_of(s);
    v.len() > 0 && v[0] == '/'
}

/// The names joined with single `/` separators.
pub fn join_path(c: &Vec<String>) -> (r: String)
    ensures
        r@ == join_components(views(c@)),
{
    let ghost cv = views(c@);
    let mut out = String::new();
    let n = c.len();
    let mut j: usize = 0;
    assert(cv.subrange(0, 0) =~= Seq::<Seq<char>>::empty());
    while j < n
        invariant
            n == c@.len(),
            cv == views(c@),
            j <= n,
            out@ == join_components(cv.subrange(0, j as int)),
        decreases n - j,
    {
        assert(cv.subrange(0, j + 1).drop_last() =~= cv.subrange(0, j as int));
        if j > 0 {
            out.append("/");
            proof {
                reveal_strlit("/");
            }
        }
        out.append(c[j].as_str());
        j = j + 1;
    }
    assert(cv.subrange(0, n as int) =~= cv);
    out
}

/// The path leading from `base` to `full`, if `base` is a prefix of `full`
/// component by component: what `Path::strip_prefix` gives for canonical paths.
pub fn relative_path(full: &str, base: &str) -> (r: Option<String>)
    ensures
        match strip_path_prefix(full@, base@) {
            Some(p) => r matches Some(q) && q@ == p,
            None => r is None,
        },
        r is Some <==> (is_absolute(full@) == is_absolute(base@) && components(
            base@,
        ).is_prefix_of(components(full@))),
        r matches Some(q) ==> components(q@) == components(full@).skip(
            components(base@).len() as int,
        ),
{
    proof {
        lemma_strip_prefix_exact(full@, base@);
    }
    let cf = path_components(full);
    let cb = path_components(base);
    if is_absolute_path(full) != is_absolute_path(base) || cb.len() > cf.len() {
        return None;
    }
    let ghost vf = views(cf@);
    let ghost vb = views(cb@);
    let m = cb.len();
    let mut i: usize = 0;
    while i < m
        invariant
            m == cb@.len(),
            m <= cf@.len(),
            vf == views(cf@),
            vb == views(cb@),
            vf == components(full@),
            vb == components(base@),
            is_absolute(full@) == is_absolute(base@),
            i <= m,
            forall|j: int| 0 <= j < i ==> vf[j] == vb[j],
        decreases m - i,
    {
        if !(cf[i] == cb[i]) {
            assert(vf.subrange(0, m as int)[i as int] != vb[i as int]);
            return None;
        }
        i = i + 1;
    }
    assert(vf.subrange(0, m as int) =~= vb);
    let mut rest: Vec<String> = Vec::new();
    let mut k: usize = m;
    while k < cf.len()
        invariant
            m <= k <= cf@.len(),
            vf == views(cf@),
            views(rest@) == vf.subrange(m as int, k as int),
        decreases cf.len() - k,
    {
        let ghost before = rest@;
        let piece = cf[k].clone();
        assert(piece@ == vf[k as int]);
        rest.push(piece);
        assert(rest@ == before.push(piece));
        assert(views(rest@) =~= views(before).push(piece@));
        assert(views(rest@) =~= vf.subrange(m as int, k + 1));
        k = k + 1;
    }
    assert(vf.subrange(m as int, vf.len() as int) =~= vf.skip(m as int));
    Some(join_path(&rest))
}

/// `rel` put after `base` as `Path::join` does: a separator goes between them
/// when both are non-empty.
pub open spec fn join_onto(base: Seq<char>, rel: Seq<char>) -> Seq<char> {
    if base.len() == 0 {
        rel
    } else if rel.len() == 0 {
        base
    } else {
        base + seq!['/'] + rel
    }
}

/// A component name: non-empty and free of separators.
pub open spec fn is_name(x: Seq<char>) -> bool {
    x.len() > 0 && !x.contains('/')
}

/// The part before a separator splits off from the part after it.
proof fn lemma_components_from_split(a: Seq<char>, b: Seq<char>, cur: Seq<char>)
    ensures
        components_from(a + seq!['/'] + b, cur) == components_from(a, cur) + components_from(
            b,
            Seq::empty(),
        ),
    decreases a.len(),
{
    let whole = a + seq!['/'] + b;
    if a.len() == 0 {
        assert(whole =~= seq!['/'] + b);
        assert(whole.drop_first() =~= b);
    } else {
        assert(whole[0] == a[0]);
        assert(whole.drop_first() =~= a.drop_first() + seq!['/'] + b);
        if a[0] == '/' {
            lemma_components_from_split(a.drop_first(), b, Seq::empty());
            let head: Seq<Seq<char>> = if cur.len() > 0 {
                seq![cur]
            } else {
                Seq::empty()
            };
            assert(head + (components_from(a.drop_first(), Seq::empty()) + components_from(
                b,
                Seq::empty(),
            )) =~= (head + components_from(a.drop_first(), Seq::empty())) + components_from(
                b,
                Seq::empty(),
            ));
        } else {
            lemma_components_from_split(a.drop_first(), b, cur.push(a[0]));
        }
    }
}

/// Text without separators after a partial name finishes that name.
proof fn lemma_components_from_name(x: Seq<char>, cur: Seq<char>)
    requires
        !x.contains('/'),
        cur.len() + x.len() > 0,
    ensures
        components_from(x, cur) == seq![cur + x],
    decreases x.len(),
{
    if x.len() == 0 {
        assert(cur + x =~= cur);
    } else {
        assert(x[0] != '/') by {
            assert(x.contains(x[0]));
        }
        let rest = x.drop_first();
        assert(!rest.contains('/')) by {
            if rest.contains('/') {
                let j = choose|j: int| 0 <= j < rest.len() && rest[j] == '/';
                assert(x[j + 1] == '/');
            }
        }
        lemma_components_from_name(rest, cur.push(x[0]));
        assert(cur.push(x[0]) + rest =~= cur + x);
    }
}

/// Every component is a name.
proof fn lemma_components_from_names(s: Seq<char>, cur: Seq<char>)
    requires
        !cur.contains('/'),
    ensures
        forall|i: int| 0 <= i < components_from(s, cur).len() ==> is_name(
            #[trigger] components_from(s, cur)[i],
        ),
    decreases s.len(),
{
    if s.len() == 0 {
        if cur.len() > 0 {
            assert(is_name(cur));
            assert(components_from(s, cur) =~= seq![cur]);
        }
    } else if s[0] == '/' {
        assert(!Seq::<char>::empty().contains('/'));
        lemma_components_from_names(s.drop_first(), Seq::empty());
        let head: Seq<Seq<char>> = if cur.len() > 0 {
            seq![cur]
        } else {
            Seq::empty()
        };
        let tail = components_from(s.drop_first(), Seq::empty());
        assert(components_from(s, cur) == head + tail);
        assert forall|i: int| 0 <= i < (head + tail).len() implies is_name(#[trigger] (head
            + tail)[i]) by {
            if i < head.len() {
                assert((head + tail)[i] == cur);
            } else {
                assert((head + tail)[i] == tail[i - head.len()]);
            }
        }
    } else {
        assert(!cur.push(s[0]).contains('/')) by {
            if cur.push(s[0]).contains('/') {
                let j = choose|j: int| 0 <= j < cur.push(s[0]).len() && cur.push(s[0])[j] == '/';
                if j < cur.len() {
                    assert(cur.contains('/'));
                }
            }
        }
        lemma_components_from_names(s.drop_first(), cur.push(s[0]));
        assert(components_from(s, cur) == components_from(s.drop_first(), cur.push(s[0])));
    }
}

/// Joining names and splitting the result gives the names back.
proof fn lemma_components_of_join(c: Seq<Seq<char>>)
    requires
        forall|i: int| 0 <= i < c.len() ==> is_name(#[trigger] c[i]),
    ensures
        components(join_components(c)) == c,
        c.len() > 0 ==> join_components(c).len() > 0 && join_components(c)[0] != '/',
    decreases c.len(),
{
    if c.len() == 0 {
    } else if c.len() == 1 {
        assert(is_name(c[0]));
        lemma_components_from_name(c[0], Seq::empty());
        assert(Seq::<char>::empty() + c[0] =~= c[0]);
        assert(seq![c[0]] =~= c);
        assert(c[0].contains(c[0][0]));
    } else {
        let p = c.drop_last();
        assert forall|i: int| 0 <= i < p.len() implies is_name(#[trigger] p[i]) by {
            assert(p[i] == c[i]);
        }
        lemma_components_of_join(p);
        let x = c.last();
        assert(is_name(c[c.len() - 1]));
        lemma_components_from_split(join_components(p), x, Seq::empty());
        lemma_components_from_name(x, Seq::empty());
        assert(Seq::<char>::empty() + x =~= x);
        assert(p.push(x) =~= c);
        let j = join_components(c);
        assert(j == join_components(p) + seq!['/'] + x);
        assert(j[0] == join_components(p)[0]);
    }
}

/// What `strip_path_prefix` gives, joined onto `base`, has the components of
/// `full` and starts at the root exactly when `full` does: "a path that, when
/// joined onto base, yields self".
pub proof fn lemma_strip_then_join(full: Seq<char>, base: Seq<char>)
    requires
        strip_path_prefix(full, base) is Some,
    ensures
        components(join_onto(base, strip_path_prefix(full, base)->0)) == components(full),
        is_absolute(join_onto(base, strip_path_prefix(full, base)->0)) == is_absolute(full),
{
    let cf = components(full);
    let cb = components(base);
    let rest = cf.skip(cb.len() as int);
    let r = join_components(rest);
    lemma_components_from_names(full, Seq::empty());
    assert(!Seq::<char>::empty().contains('/'));
    assert forall|i: int| 0 <= i < rest.len() implies is_name(#[trigger] rest[i]) by {
        assert(rest[i] == cf[i + cb.len()]);
    }
    lemma_components_of_join(rest);
    assert(cf =~= cb + rest);
    if base.len() == 0 {
        assert(cb =~= Seq::<Seq<char>>::empty());
        assert(rest =~= cf);
        if r.len() > 0 {
            assert(!is_absolute(full));
        }
    } else if r.len() == 0 {
        assert(rest =~= Seq::<Seq<char>>::empty()) by {
            if rest.len() > 0 {
                assert(join_components(rest).len() > 0);
            }
        }
        assert(cf =~= cb);
    } else {
        lemma_components_from_split(base, r, Seq::empty());
        assert(join_onto(base, r)[0] == base[0]);
    }
}

/// The prefix strip succeeds exactly when both paths start at the root or
/// both do not, and the components of `base` begin those of `full`; the path
/// it gives then has the remaining components of `full`, all of them.
pub proof fn lemma_strip_prefix_exact(full: Seq<char>, base: Seq<char>)
    ensures
        strip_path_prefix(full, base) is Some <==> (is_absolute(full) == is_absolute(base)
            && components(base).is_prefix_of(components(full))),
        strip_path_prefix(full, base) matches Some(r) ==> components(r) == components(full).skip(
            components(base).len() as int,
        ),
{
    let cf = components(full);
    let cb = components(base);
    if cb.len() <= cf.len() {
        assert(cb.is_prefix_of(cf) <==> cf.subrange(0, cb.len() as int) == cb) by {
            if cb.is_prefix_of(cf) {
                assert(cf.subrange(0, cb.len() as int) =~= cb);
            }
            if cf.subrange(0, cb.len() as int) == cb {
                assert forall|i: int| 0 <= i < cb.len() implies cb[i] == cf[i] by {
                    assert(cf.subrange(0, cb.len() as int)[i] == cf[i]);
                }
            }
        }
        let rest = cf.skip(cb.len() as int);
        lemma_components_from_names(full, Seq::empty());
        assert(!Seq::<char>::empty().contains('/'));
        assert forall|i: int| 0 <= i < rest.len() implies is_name(#[trigger] rest[i]) by {
            assert(rest[i] == cf[i + cb.len()]);
        }
        lemma_components_of_join(rest);
    }
}

} // verus!
