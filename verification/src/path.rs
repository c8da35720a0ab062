//! Paths as text, with `/` between their components. Every system takes `/`
//! there, and the paths that are taken apart here were put together here.

use vstd::prelude::*;

verus! {

/// `part` placed under `base`. An absolute `part` takes the place of `base`.
pub open spec fn joined(base: Seq<char>, part: Seq<char>) -> Seq<char> {
    if part.len() > 0 && part.first() == '/' {
        part
    } else if base.len() == 0 || base.last() == '/' {
        base + part
    } else {
        base.push('/') + part
    }
}

/// A component of the path `s` ends before index `e`. Components are the runs
/// of characters other than `/`; a run `.` counts only where `s` begins with it.
pub open spec fn component_ends(s: Seq<char>, e: int) -> bool {
    &&& 1 <= e <= s.len()
    &&& s[e - 1] != '/'
    &&& e == s.len() || s[e] == '/'
    &&& !(s[e - 1] == '.' && e >= 2 && s[e - 2] == '/')
}

/// The greatest index, `bound` at most, before which a component of `s` ends.
pub open spec fn last_component_end(s: Seq<char>, bound: int) -> Option<int>
    decreases bound,
{
    if bound <= 0 {
        None
    } else if component_ends(s, bound) {
        Some(bound)
    } else {
        last_component_end(s, bound - 1)
    }
}

/// How many characters of `s` name the root.
pub open spec fn root_len(s: Seq<char>) -> int {
    if s.len() > 0 && s.first() == '/' {
        1
    } else {
        0
    }
}

/// `s` without its last component and what follows the one before it. There is
/// none of the root and of the empty path.
pub open spec fn parent_of(s: Seq<char>) -> Option<Seq<char>> {
    match last_component_end(s, s.len() as int) {
        Some(last) => match last_component_end(s, last - 1) {
            Some(before) => Some(s.take(before)),
            None => Some(s.take(root_len(s))),
        },
        None => None,
    }
}

/// A name that a directory can hold: a single component, neither `.` nor empty.
pub open spec fn is_plain_name(s: Seq<char>) -> bool {
    &&& s.len() > 0
    &&& !s.contains('/')
    &&& s != seq!['.']
}

/// `part` placed under `base`. An absolute `part` takes the place of `base`.
pub fn join(base: &str, part: &str) -> (r: String)
    ensures
        r@ == joined(base@, part@),
{
    if part.unicode_len() > 0 && part.get_char(0) == '/' {
        return part.to_owned();
    }
    let mut r = base.to_owned();
    let n: usize = base.unicode_len();
    if n > 0 && base.get_char(n - 1) != '/' {
        r.append("/");
        proof {
            reveal_strlit("/");
            assert(base@ + "/"@ =~= base@.push('/'));
        }
    }
    r.append(part);
    r
}

fn last_end(s: &str, bound: usize) -> (r: Option<usize>)
    requires
        bound <= s@.len(),
    ensures
        match r {
            Some(e) => last_component_end(s@, bound as int) == Some(e as int) && 1 <= e <= bound,
            None => last_component_end(s@, bound as int) is None,
        },
{
    let n: usize = s.unicode_len();
    let mut e: usize = bound;
    while e > 0
        invariant
            n == s@.len(),
            e <= bound <= n,
            last_component_end(s@, bound as int) == last_component_end(s@, e as int),
        decreases e,
    {
        let c: char = s.get_char(e - 1);
        if c != '/' && (e == n || s.get_char(e) == '/') && !(c == '.' && e >= 2 && s.get_char(e - 2)
            == '/') {
            return Some(e);
        }
        e = e - 1;
    }
    None
}

/// The path that holds the last component of `s`.
pub fn parent<'a>(s: &'a str) -> (r: Option<&'a str>)
    ensures
        match r {
            Some(p) => parent_of(s@) == Some(p@),
            None => parent_of(s@) is None,
        },
{
    let n: usize = s.unicode_len();
    match last_end(s, n) {
        Some(last) => match last_end(s, last - 1) {
            Some(before) => Some(s.substring_char(0, before)),
            None => if s.get_char(0) == '/' {
                Some(s.substring_char(0, 1))
            } else {
                Some(s.substring_char(0, 0))
            },
        },
        None => None,
    }
}

proof fn lemma_last_end_is_last(s: Seq<char>, e: int, bound: int)
    requires
        component_ends(s, e),
        e <= bound <= s.len(),
        forall|k: int| e < k <= bound ==> !component_ends(s, k),
    ensures
        last_component_end(s, bound) == Some(e),
    decreases bound,
{
    if bound > e {
        lemma_last_end_is_last(s, e, bound - 1);
    }
}

/// What was placed under a directory by its plain name has that directory as
/// its parent, where the directory's own text ends with a component.
pub proof fn law_parent_of_joined(base: Seq<char>, name: Seq<char>)
    requires
        component_ends(base, base.len() as int),
        is_plain_name(name),
    ensures
        parent_of(joined(base, name)) == Some(base),
        component_ends(joined(base, name), joined(base, name).len() as int),
{
    let s = joined(base, name);
    let b = base.len() as int;
    let n = s.len() as int;
    assert(name.contains(name[0]));
    assert(s =~= base.push('/') + name);
    assert forall|k: int| b < k < n implies #[trigger] s[k] != '/' by {
        assert(name.contains(name[k - b - 1]));
    }
    assert(name.contains(name.last()));
    if name.len() == 1 {
        assert(name =~= seq![name[0]]);
    }
    assert(component_ends(s, n));
    assert forall|k: int| b < k < n implies !component_ends(s, k) by {
        if k == b + 1 {
            assert(s[k - 1] == '/');
        } else {
            assert(s[k] != '/');
        }
    }
    lemma_last_end_is_last(s, n, n);
    assert(component_ends(s, b));
    lemma_last_end_is_last(s, b, n - 1);
    assert(s.take(b) =~= base);
}

/// Whatever a directory's text, what is placed under it by a plain name ends
/// with a component.
pub proof fn law_joined_ends_with_component(base: Seq<char>, name: Seq<char>)
    requires
        is_plain_name(name),
    ensures
        component_ends(joined(base, name), joined(base, name).len() as int),
{
    let s = joined(base, name);
    let n = s.len() as int;
    assert(name.contains(name[0]));
    assert(name.contains(name.last()));
    assert(s.last() == name.last());
    if name.len() == 1 {
        assert(name =~= seq![name[0]]);
    } else {
        assert(name.contains(name[name.len() - 2]));
        assert(s[n - 2] == name[name.len() - 2]);
    }
}

/// Two relative paths placed under one directory make the same path only where
/// they are the same.
pub proof fn law_joined_tells_apart(base: Seq<char>, one: Seq<char>, other: Seq<char>)
    requires
        root_len(one) == 0,
        root_len(other) == 0,
        joined(base, one) == joined(base, other),
    ensures
        one == other,
{
    let b = (joined(base, one).len() - one.len()) as int;
    assert(joined(base, one).skip(b) =~= one);
    assert(joined(base, other).skip(b) =~= other);
}

/// A relative path is placed under a directory with one `/` between them, and an
/// absolute one takes its place.
pub proof fn law_joined_by_one_slash(base: Seq<char>, part: Seq<char>)
    ensures
        "/"@.is_prefix_of(part) ==> joined(base, part) == part,
        !"/"@.is_prefix_of(part) && "/"@.is_suffix_of(base) ==> joined(base, part) == base + part,
        !"/"@.is_prefix_of(part) && base.len() > 0 && !"/"@.is_suffix_of(base) ==> joined(base, part)
            == base + "/"@ + part,
        !"/"@.is_prefix_of(part) && base.len() == 0 ==> joined(base, part) == part,
{
    reveal_strlit("/");
    if part.len() > 0 {
        assert("/"@.is_prefix_of(part) <==> part.first() == '/') by {
            if part.first() == '/' {
                assert("/"@ =~= part.subrange(0, 1));
            } else if "/"@.is_prefix_of(part) {
                assert(part.subrange(0, 1)[0] == part[0]);
            }
        }
    }
    if base.len() > 0 {
        assert("/"@.is_suffix_of(base) <==> base.last() == '/') by {
            let end = base.subrange(base.len() - 1, base.len() as int);
            if base.last() == '/' {
                assert("/"@ =~= end);
            } else if "/"@.is_suffix_of(base) {
                assert(end[0] == base.last());
            }
        }
        assert(base.push('/') =~= base + "/"@);
    } else {
        assert(base + part =~= part);
    }
}

/// The parent of a name under a directory is the directory, that of a name under
/// the root is the root, and that of a mere name is the empty path; the root and
/// the empty path have none, and a `/` at the end of a path does not count.
pub proof fn law_parent_is_one_up(base: Seq<char>, name: Seq<char>)
    requires
        name.len() > 0,
        !name.contains('/'),
        name != seq!['.'],
    ensures
        base.len() > 0 && base.last() != '/' && !(base.len() > 1 && base.last() == '.' && base[base.len()
            - 2] == '/') ==> parent_of(base + "/"@ + name) == Some(base),
        parent_of("/"@ + name) == Some("/"@),
        parent_of(name) == Some(Seq::<char>::empty()),
        parent_of("/"@) is None,
        parent_of(Seq::empty()) is None,
        parent_of(base + "/"@) == parent_of(base),
{
    reveal_strlit("/");
    if base.len() > 0 && base.last() != '/' && !(base.len() > 1 && base.last() == '.' && base[base.len()
        - 2] == '/') {
        law_parent_of_joined(base, name);
        assert(joined(base, name) =~= base + "/"@ + name) by {
            assert(name.contains(name[0]));
        }
    }
    lemma_no_end_within(Seq::empty(), name);
    assert("/"@ =~= seq!['/']);
    lemma_no_end_within("/"@, name);
    assert(Seq::<char>::empty() + name =~= name);
    assert(name.take(0) =~= Seq::<char>::empty());
    assert(("/"@ + name).take(1) =~= "/"@);
    reveal_with_fuel(last_component_end, 3);
    let s = base + "/"@;
    let n = base.len() as int;
    lemma_same_ends(base, n);
    assert(!component_ends(s, n + 1));
    match last_component_end(base, n) {
        Some(last) => {
            lemma_end_in_bound(base, n);
            lemma_same_ends(base, last - 1);
            lemma_end_in_bound(base, last - 1);
            match last_component_end(base, last - 1) {
                Some(before) => {
                    assert(s.take(before) =~= base.take(before));
                },
                None => {
                    assert(s.take(root_len(base)) =~= base.take(root_len(base)));
                },
            }
        },
        None => {},
    }
}

proof fn lemma_end_in_bound(s: Seq<char>, bound: int)
    ensures
        last_component_end(s, bound) matches Some(e) ==> 1 <= e <= bound && component_ends(s, e),
    decreases bound,
{
    if bound > 0 && !component_ends(s, bound) {
        lemma_end_in_bound(s, bound - 1);
    }
}

proof fn lemma_same_ends(base: Seq<char>, bound: int)
    requires
        bound <= base.len(),
    ensures
        last_component_end(base + "/"@, bound) == last_component_end(base, bound),
    decreases bound,
{
    reveal_strlit("/");
    if bound > 0 {
        let s = base + "/"@;
        assert(component_ends(s, bound) == component_ends(base, bound));
        lemma_same_ends(base, bound - 1);
    }
}

proof fn lemma_no_end_within(root: Seq<char>, name: Seq<char>)
    requires
        name.len() > 0,
        !name.contains('/'),
        name != seq!['.'],
        root.len() == 0 || root == seq!['/'],
    ensures
        last_component_end(root + name, (root + name).len() as int) == Some(
            (root + name).len() as int,
        ),
        last_component_end(root + name, (root + name).len() - 1) is None,
{
    let s = root + name;
    let r = root.len() as int;
    assert forall|k: int| r <= k < s.len() implies #[trigger] s[k] != '/' by {
        assert(name.contains(name[k - r]));
    }
    if name.len() == 1 {
        assert(name =~= seq![name[0]]);
    }
    assert(component_ends(s, s.len() as int));
    lemma_no_end_up_to(s, r, s.len() - 1);
}

proof fn lemma_no_end_up_to(s: Seq<char>, r: int, bound: int)
    requires
        0 <= r <= 1,
        bound < s.len(),
        r == 1 ==> s[0] == '/',
        forall|k: int| r <= k < s.len() ==> #[trigger] s[k] != '/',
    ensures
        last_component_end(s, bound) is None,
    decreases bound,
{
    if bound > 0 {
        if bound >= r {
            assert(s[bound] != '/');
        }
        lemma_no_end_up_to(s, r, bound - 1);
    }
}

/// Where one component follows another, further `/` between them and a `.` there
/// do not count, nor does a `/.` at the end of a path.
pub proof fn law_separators_do_not_count(x: Seq<char>, name: Seq<char>)
    requires
        name.len() > 0,
        !name.contains('/'),
        name != seq!['.'],
    ensures
        parent_of(x + "/"@ + "/"@ + name) == parent_of(x + "/"@ + name),
        parent_of(x + "/."@ + "/"@ + name) == parent_of(x + "/"@ + name),
        parent_of(x + "/."@) == parent_of(x),
{
    reveal_strlit("/");
    reveal_strlit("/.");
    lemma_parent_above(x, name);
    lemma_parent_above(x + "/"@, name);
    lemma_parent_above(x + "/."@, name);
    let n = x.len() as int;
    let y = x + "/"@;
    let z = x + "/."@;
    lemma_same_ends(x, n);
    lemma_ends_before_dot(x, n);
    assert(!component_ends(y, n + 1));
    assert(!component_ends(z, n + 1));
    assert(!component_ends(z, n + 2));
    reveal_with_fuel(last_component_end, 3);
    lemma_end_in_bound(x, n);
    match last_component_end(x, n) {
        Some(last) => {
            assert(y.take(last) =~= x.take(last));
            assert(z.take(last) =~= x.take(last));
            lemma_ends_before_dot(x, last - 1);
            lemma_end_in_bound(x, last - 1);
            match last_component_end(x, last - 1) {
                Some(before) => {
                    assert(z.take(before) =~= x.take(before));
                },
                None => {
                    assert(z.take(root_len(x)) =~= x.take(root_len(x)));
                },
            }
        },
        None => {},
    }
}

proof fn lemma_ends_before_dot(x: Seq<char>, bound: int)
    requires
        bound <= x.len(),
    ensures
        last_component_end(x + "/."@, bound) == last_component_end(x, bound),
    decreases bound,
{
    reveal_strlit("/.");
    if bound > 0 {
        let s = x + "/."@;
        assert(component_ends(s, bound) == component_ends(x, bound));
        lemma_ends_before_dot(x, bound - 1);
    }
}

proof fn lemma_parent_above(x: Seq<char>, name: Seq<char>)
    requires
        name.len() > 0,
        !name.contains('/'),
        name != seq!['.'],
    ensures
        parent_of(x + "/"@ + name) == match last_component_end(x, x.len() as int) {
            Some(e) => Some(x.take(e)),
            None => Some((x + "/"@).take(root_len(x + "/"@))),
        },
{
    reveal_strlit("/");
    let s = x + "/"@ + name;
    let n = x.len() as int;
    assert forall|k: int| n < k < s.len() implies #[trigger] s[k] != '/' by {
        assert(name.contains(name[k - n - 1]));
    }
    if name.len() == 1 {
        assert(name =~= seq![name[0]]);
    }
    assert(component_ends(s, s.len() as int));
    assert(s.take(n) =~= x);
    lemma_down_to(s, x, s.len() - 1);
    lemma_end_in_bound(x, n);
    match last_component_end(x, n) {
        Some(e) => {
            assert(s.take(e) =~= x.take(e));
        },
        None => {
            assert(s.take(root_len(s)) =~= (x + "/"@).take(root_len(x + "/"@)));
        },
    }
}

proof fn lemma_down_to(s: Seq<char>, x: Seq<char>, bound: int)
    requires
        x.len() < s.len(),
        s.take(x.len() as int) == x,
        s[x.len() as int] == '/',
        forall|k: int| x.len() < k < s.len() ==> #[trigger] s[k] != '/',
        bound < s.len(),
    ensures
        last_component_end(s, bound) == last_component_end(
            x,
            if bound < x.len() {
                bound
            } else {
                x.len() as int
            },
        ),
    decreases bound,
{
    if bound > 0 {
        assert forall|k: int| 0 <= k < x.len() implies #[trigger] s[k] == x[k] by {
            assert(s.take(x.len() as int)[k] == s[k]);
        }
        if bound > x.len() {
            assert(s[bound] != '/');
            assert(!component_ends(s, bound));
        } else {
            assert(component_ends(s, bound) == component_ends(x, bound));
        }
        lemma_down_to(s, x, bound - 1);
    }
}

} // verus!
