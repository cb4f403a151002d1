//! Character-level string operations with mathematical specifications.
use vstd::prelude::*;

verus! {

/// `p` is a prefix of `s`.
pub open spec fn starts_with(s: Seq<char>, p: Seq<char>) -> bool {
    p.len() <= s.len() && s.subrange(0, p.len() as int) == p
}

/// Every non-overlapping occurrence of `pat`, scanning from the left, replaced by `rep`.
pub open spec fn replace_all(s: Seq<char>, pat: Seq<char>, rep: Seq<char>) -> Seq<char>
    decreases s.len(),
{
    if pat.len() == 0 || s.len() < pat.len() {
        s
    } else if starts_with(s, pat) {
        rep + replace_all(s.subrange(pat.len() as int, s.len() as int), pat, rep)
    } else {
        seq![s[0]] + replace_all(s.drop_first(), pat, rep)
    }
}

/// Whether `pat` occurs in `s` at position `i`.
pub fn occurs_at(s: &str, i: usize, pat: &str) -> (r: bool)
    requires
        i <= s@.len(),
    ensures
        r == starts_with(s@.subrange(i as int, s@.len() as int), pat@),
{
    let n = s.unicode_len();
    let m = pat.unicode_len();
    if m > n - i {
        return false;
    }
    let mut k: usize = 0;
    while k < m
        invariant
            n == s@.len(),
            m == pat@.len(),
            i + m <= n,
            k <= m,
            forall|j: int| 0 <= j < k ==> s@[i + j] == pat@[j],
        decreases m - k,
    {
        if s.get_char(i + k) != pat.get_char(k) {
            return false;
        }
        k = k + 1;
    }
    assert(s@.subrange(i as int, s@.len() as int).subrange(0, m as int) =~= pat@);
    true
}

/// `s` with every occurrence of `pat` replaced by `rep`, left to right.
pub fn replace(s: &str, pat: &str, rep: &str) -> (r: String)
    requires
        pat@.len() > 0,
    ensures
        r@ == replace_all(s@, pat@, rep@),
{
    let n = s.unicode_len();
    let m = pat.unicode_len();
    let mut out = String::new();
    let mut i: usize = 0;
    assert(s@.subrange(0, n as int) =~= s@);
    assert(out@ + replace_all(s@, pat@, rep@) =~= replace_all(s@, pat@, rep@));
    while i < n
        invariant
            n == s@.len(),
            m == pat@.len(),
            m > 0,
            i <= n,
            out@ + replace_all(s@.subrange(i as int, n as int), pat@, rep@) == replace_all(s@, pat@, rep@),
        decreases n - i,
    {
        let ghost rest = s@.subrange(i as int, n as int);
        if m > n - i {
            let tail = s.substring_char(i, n);
            out.append(tail);
            assert(out@ == replace_all(s@, pat@, rep@));
            i = n;
            assert(s@.subrange(i as int, n as int) =~= Seq::<char>::empty());
        } else if occurs_at(s, i, pat) {
            let ghost before = out@;
            out.append(rep);
            assert(rest.subrange(m as int, rest.len() as int) =~= s@.subrange(i + m, n as int));
            assert(before + (rep@ + replace_all(s@.subrange(i + m, n as int), pat@, rep@)) =~= out@ + replace_all(s@.subrange(i + m, n as int), pat@, rep@));
            i = i + m;
        } else {
            let c = s.substring_char(i, i + 1);
            let ghost before = out@;
            out.append(c);
            assert(rest.drop_first() =~= s@.subrange(i + 1, n as int));
            assert(c@ =~= seq![rest[0]]);
            assert(before + (c@ + replace_all(s@.subrange(i + 1, n as int), pat@, rep@)) =~= out@ + replace_all(s@.subrange(i + 1, n as int), pat@, rep@));
            i = i + 1;
        }
    }
    assert(s@.subrange(n as int, n as int) =~= Seq::<char>::empty());
    out
}

/// `p` is a suffix of `s`.
pub open spec fn ends_with(s: Seq<char>, p: Seq<char>) -> bool {
    p.len() <= s.len() && s.subrange(s.len() - p.len(), s.len() as int) == p
}

/// The characters that Unicode gives the White_Space property.
pub open spec fn is_ws(c: char) -> bool {
    ||| '\u{9}' <= c <= '\u{d}'
    ||| c == ' '
    ||| c == '\u{85}'
    ||| c == '\u{a0}'
    ||| c == '\u{1680}'
    ||| '\u{2000}' <= c <= '\u{200a}'
    ||| c == '\u{2028}'
    ||| c == '\u{2029}'
    ||| c == '\u{202f}'
    ||| c == '\u{205f}'
    ||| c == '\u{3000}'
}

pub fn is_whitespace(c: char) -> (r: bool)
    ensures
        r == is_ws(c),
{
    ('\u{9}' <= c && c <= '\u{d}') || c == ' ' || c == '\u{85}' || c == '\u{a0}' || c == '\u{1680}'
        || ('\u{2000}' <= c && c <= '\u{200a}') || c == '\u{2028}' || c == '\u{2029}'
        || c == '\u{202f}' || c == '\u{205f}' || c == '\u{3000}'
}

/// `s` holds no whitespace character.
pub open spec fn no_ws(s: Seq<char>) -> bool {
    forall|i: int| 0 <= i < s.len() ==> !is_ws(#[trigger] s[i])
}

/// `s` holds only whitespace characters.
pub open spec fn all_ws(s: Seq<char>) -> bool {
    forall|i: int| 0 <= i < s.len() ==> is_ws(#[trigger] s[i])
}

/// Number of leading whitespace characters of `s`.
pub open spec fn ws_prefix_len(s: Seq<char>) -> nat
    decreases s.len(),
{
    if s.len() > 0 && is_ws(s[0]) {
        1 + ws_prefix_len(s.drop_first())
    } else {
        0
    }
}

/// `s` without its leading whitespace.
pub open spec fn trim_start_seq(s: Seq<char>) -> Seq<char> {
    s.subrange(ws_prefix_len(s) as int, s.len() as int)
}

/// The pieces of `s` between occurrences of `sep`, empty pieces included.
pub open spec fn split_seq(s: Seq<char>, sep: char) -> Seq<Seq<char>>
    decreases s.len(),
{
    if s.len() == 0 {
        seq![Seq::empty()]
    } else {
        let init = split_seq(s.drop_last(), sep);
        if s.last() == sep {
            init.push(Seq::empty())
        } else {
            init.update(init.len() - 1, init.last().push(s.last()))
        }
    }
}

/// Reading `s` left to right: the words completed so far and the word being read.
pub open spec fn words_state(s: Seq<char>) -> (Seq<Seq<char>>, Seq<char>)
    decreases s.len(),
{
    if s.len() == 0 {
        (Seq::empty(), Seq::empty())
    } else {
        let (done, cur) = words_state(s.drop_last());
        if is_ws(s.last()) {
            if cur.len() > 0 {
                (done.push(cur), Seq::empty())
            } else {
                (done, Seq::empty())
            }
        } else {
            (done, cur.push(s.last()))
        }
    }
}

/// The maximal runs of non-whitespace characters of `s`, in order.
pub open spec fn words(s: Seq<char>) -> Seq<Seq<char>> {
    let (done, cur) = words_state(s);
    if cur.len() > 0 {
        done.push(cur)
    } else {
        done
    }
}

/// The pieces of `ss` with `sep` between each two.
pub open spec fn join_seq(ss: Seq<Seq<char>>, sep: Seq<char>) -> Seq<char>
    decreases ss.len(),
{
    if ss.len() == 0 {
        Seq::empty()
    } else if ss.len() == 1 {
        ss[0]
    } else {
        join_seq(ss.drop_last(), sep) + sep + ss.last()
    }
}

/// The views of a vector of strings.
pub open spec fn views(v: Seq<String>) -> Seq<Seq<char>> {
    v.map_values(|x: String| x@)
}

/// `a` followed by `b`.
pub fn cat(a: &str, b: &str) -> (r: String)
    ensures
        r@ == a@ + b@,
{
    let mut r = String::from_str(a);
    r.append(b);
    r
}

pub fn strip_prefix(s: &str, p: &str) -> (r: Option<String>)
    ensures
        r is Some <==> starts_with(s@, p@),
        r is Some ==> r->0@ == s@.subrange(p@.len() as int, s@.len() as int),
{
    if occurs_at(s, 0, p) {
        proof {
            assert(s@.subrange(0, s@.len() as int) =~= s@);
        }
        let n = s.unicode_len();
        let m = p.unicode_len();
        Some(String::from_str(s.substring_char(m, n)))
    } else {
        proof {
            assert(s@.subrange(0, s@.len() as int) =~= s@);
        }
        None
    }
}

pub fn strip_suffix(s: &str, p: &str) -> (r: Option<String>)
    ensures
        r is Some <==> ends_with(s@, p@),
        r is Some ==> r->0@ == s@.subrange(0, s@.len() - p@.len()),
{
    let n = s.unicode_len();
    let m = p.unicode_len();
    if m > n {
        return None;
    }
    if occurs_at(s, n - m, p) {
        proof {
            assert(s@.subrange(n - m, n as int).subrange(0, m as int) =~= s@.subrange(n - m, n as int));
        }
        Some(String::from_str(s.substring_char(0, n - m)))
    } else {
        proof {
            assert(s@.subrange(n - m, n as int).subrange(0, m as int) =~= s@.subrange(n - m, n as int));
        }
        None
    }
}

pub fn contains_ws(s: &str) -> (r: bool)
    ensures
        r == !no_ws(s@),
{
    let n = s.unicode_len();
    let mut i: usize = 0;
    while i < n
        invariant
            n == s@.len(),
            i <= n,
            forall|j: int| 0 <= j < i ==> !is_ws(#[trigger] s@[j]),
        decreases n - i,
    {
        if is_whitespace(s.get_char(i)) {
            return true;
        }
        i = i + 1;
    }
    false
}

pub fn is_blank(s: &str) -> (r: bool)
    ensures
        r == all_ws(s@),
{
    let n = s.unicode_len();
    let mut i: usize = 0;
    while i < n
        invariant
            n == s@.len(),
            i <= n,
            forall|j: int| 0 <= j < i ==> is_ws(#[trigger] s@[j]),
        decreases n - i,
    {
        if !is_whitespace(s.get_char(i)) {
            return false;
        }
        i = i + 1;
    }
    true
}

proof fn lemma_ws_prefix_step(s: Seq<char>, k: int)
    requires
        0 <= k < s.len(),
        is_ws(s[k]),
    ensures
        ws_prefix_len(s.subrange(k, s.len() as int)) == 1 + ws_prefix_len(s.subrange(k + 1, s.len() as int)),
{
    assert(s.subrange(k, s.len() as int).drop_first() =~= s.subrange(k + 1, s.len() as int));
}

pub fn trim_start(s: &str) -> (r: String)
    ensures
        r@ == trim_start_seq(s@),
{
    let n = s.unicode_len();
    let mut i: usize = 0;
    assert(s@.subrange(0, n as int) =~= s@);
    while i < n && is_whitespace(s.get_char(i))
        invariant
            n == s@.len(),
            i <= n,
            ws_prefix_len(s@) == i + ws_prefix_len(s@.subrange(i as int, n as int)),
        decreases n - i,
    {
        proof {
            lemma_ws_prefix_step(s@, i as int);
        }
        i = i + 1;
    }
    assert(ws_prefix_len(s@.subrange(i as int, n as int)) == 0);
    String::from_str(s.substring_char(i, n))
}

/// Index of the first occurrence of `c` in `s`.
pub fn find_char(s: &str, c: char) -> (r: Option<usize>)
    ensures
        r is None ==> !s@.contains(c),
        r is Some ==> r->0 < s@.len() && s@[r->0 as int] == c && !s@.subrange(0, r->0 as int).contains(c),
{
    let n = s.unicode_len();
    let mut i: usize = 0;
    while i < n
        invariant
            n == s@.len(),
            i <= n,
            forall|j: int| 0 <= j < i ==> s@[j] != c,
        decreases n - i,
    {
        if s.get_char(i) == c {
            proof {
                assert forall|j: int| 0 <= j < i implies s@.subrange(0, i as int)[j] != c by {}
            }
            return Some(i);
        }
        i = i + 1;
    }
    None
}

/// Index of the last occurrence of `c` in `s`.
pub fn rfind_char(s: &str, c: char) -> (r: Option<usize>)
    ensures
        r is None ==> !s@.contains(c),
        r is Some ==> r->0 < s@.len() && s@[r->0 as int] == c
            && !s@.subrange(r->0 + 1, s@.len() as int).contains(c),
{
    let n = s.unicode_len();
    let mut i: usize = n;
    while i > 0
        invariant
            n == s@.len(),
            i <= n,
            forall|j: int| i <= j < n ==> s@[j] != c,
        decreases i,
    {
        if s.get_char(i - 1) == c {
            proof {
                assert forall|j: int| 0 <= j < n - i implies s@.subrange(i as int, n as int)[j] != c by {
                    assert(s@.subrange(i as int, n as int)[j] == s@[i + j]);
                }
            }
            return Some(i - 1);
        }
        i = i - 1;
    }
    None
}

pub fn split_char(s: &str, sep: char) -> (r: Vec<String>)
    ensures
        views(r@) == split_seq(s@, sep),
{
    let n = s.unicode_len();
    let mut done: Vec<String> = Vec::new();
    let mut cur = String::new();
    let mut i: usize = 0;
    assert(s@.subrange(0, 0) =~= Seq::<char>::empty());
    assert(views(done@).push(cur@) =~= split_seq(Seq::empty(), sep));
    while i < n
        invariant
            n == s@.len(),
            i <= n,
            views(done@).push(cur@) == split_seq(s@.subrange(0, i as int), sep),
        decreases n - i,
    {
        let c = s.get_char(i);
        let ghost pre = s@.subrange(0, i as int);
        assert(s@.subrange(0, i + 1).drop_last() =~= pre);
        if c == sep {
            done.push(cur);
            cur = String::new();
            assert(views(done@).push(cur@) =~= split_seq(s@.subrange(0, i + 1), sep));
        } else {
            let piece = s.substring_char(i, i + 1);
            let ghost old_cur = cur@;
            cur.append(piece);
            assert(piece@ =~= seq![c]);
            assert(cur@ =~= old_cur.push(c));
            assert(s@.subrange(0, i + 1).last() == c);
            assert(views(done@).push(cur@) =~= split_seq(s@.subrange(0, i + 1), sep));
        }
        i = i + 1;
    }
    assert(s@.subrange(0, n as int) =~= s@);
    done.push(cur);
    assert(views(done@) =~= split_seq(s@, sep));
    done
}

pub fn split_words(s: &str) -> (r: Vec<String>)
    ensures
        views(r@) == words(s@),
{
    let n = s.unicode_len();
    let mut done: Vec<String> = Vec::new();
    let mut cur = String::new();
    let mut i: usize = 0;
    assert(s@.subrange(0, 0) =~= Seq::<char>::empty());
    assert(views(done@) =~= Seq::<Seq<char>>::empty());
    while i < n
        invariant
            n == s@.len(),
            i <= n,
            (views(done@), cur@) == words_state(s@.subrange(0, i as int)),
        decreases n - i,
    {
        let c = s.get_char(i);
        assert(s@.subrange(0, i + 1).drop_last() =~= s@.subrange(0, i as int));
        if is_whitespace(c) {
            if cur.unicode_len() > 0 {
                done.push(cur);
                cur = String::new();
                assert(views(done@) =~= words_state(s@.subrange(0, i + 1)).0);
            }
        } else {
            let piece = s.substring_char(i, i + 1);
            cur.append(piece);
            assert(cur@ =~= words_state(s@.subrange(0, i + 1)).1);
        }
        i = i + 1;
    }
    assert(s@.subrange(0, n as int) =~= s@);
    if cur.unicode_len() > 0 {
        done.push(cur);
        assert(views(done@) =~= words(s@));
    }
    done
}

pub fn join(v: &Vec<String>, sep: &str) -> (r: String)
    ensures
        r@ == join_seq(views(v@), sep@),
{
    let mut out = String::new();
    let mut i: usize = 0;
    while i < v.len()
        invariant
            i <= v@.len(),
            out@ == join_seq(views(v@.subrange(0, i as int)), sep@),
        decreases v@.len() - i,
    {
        assert(views(v@.subrange(0, i + 1)).drop_last() =~= views(v@.subrange(0, i as int)));
        if i > 0 {
            out.append(sep);
        }
        out.append(v[i].as_str());
        assert(views(v@.subrange(0, i + 1)).last() == v@[i as int]@);
        proof {
            if i == 0 {
                assert(out@ =~= join_seq(views(v@.subrange(0, 1)), sep@));
            }
        }
        i = i + 1;
    }
    assert(v@.subrange(0, v@.len() as int) =~= v@);
    out
}

/// Whether `a` and `b` hold the same characters.
pub fn same_text(a: &str, b: &str) -> (r: bool)
    ensures
        r == (a@ == b@),
{
    if a.unicode_len() != b.unicode_len() {
        return false;
    }
    let r = occurs_at(a, 0, b);
    assert(a@.subrange(0, a@.len() as int) =~= a@);
    assert(r ==> a@.subrange(0, b@.len() as int) =~= a@);
    r
}

/// Index of the first of `keys` that is a prefix of `s`.
pub open spec fn key_at(s: Seq<char>, keys: Seq<Seq<char>>) -> Option<int>
    decreases keys.len(),
{
    if keys.len() == 0 {
        None
    } else {
        let p = key_at(s, keys.drop_last());
        if p is Some {
            p
        } else if starts_with(s, keys.last()) {
            Some(keys.len() - 1)
        } else {
            None
        }
    }
}

/// One left-to-right pass over `s`: where one of `keys` starts, the first such
/// key is replaced by the value at its index, and the scan goes on after it;
/// inserted values are never scanned again.
pub open spec fn subst(s: Seq<char>, keys: Seq<Seq<char>>, vals: Seq<Seq<char>>) -> Seq<char>
    decreases s.len(),
{
    if s.len() == 0 {
        s
    } else {
        let k = key_at(s, keys);
        if k is Some && 0 <= k->0 < keys.len() && 0 < keys[k->0].len() <= s.len() {
            vals[k->0] + subst(s.subrange(keys[k->0].len() as int, s.len() as int), keys, vals)
        } else {
            seq![s[0]] + subst(s.drop_first(), keys, vals)
        }
    }
}

proof fn lemma_key_at_range(s: Seq<char>, keys: Seq<Seq<char>>)
    ensures
        key_at(s, keys) matches Some(k) ==> 0 <= k < keys.len() && starts_with(s, keys[k]),
    decreases keys.len(),
{
    if keys.len() > 0 {
        lemma_key_at_range(s, keys.drop_last());
    }
}

fn first_key_at(s: &str, i: usize, keys: &Vec<String>) -> (r: Option<usize>)
    requires
        i <= s@.len(),
    ensures
        r matches Some(k) ==> key_at(s@.subrange(i as int, s@.len() as int), views(keys@)) == Some(k as int),
        r is None ==> key_at(s@.subrange(i as int, s@.len() as int), views(keys@)) is None,
{
    let ghost rest = s@.subrange(i as int, s@.len() as int);
    let mut j: usize = 0;
    assert(views(keys@).subrange(0, 0) =~= Seq::<Seq<char>>::empty());
    while j < keys.len()
        invariant
            j <= keys@.len(),
            rest == s@.subrange(i as int, s@.len() as int),
            i <= s@.len(),
            key_at(rest, views(keys@).subrange(0, j as int)) is None,
        decreases keys@.len() - j,
    {
        assert(views(keys@).subrange(0, j + 1).drop_last() =~= views(keys@).subrange(0, j as int));
        assert(views(keys@).subrange(0, j + 1).last() == keys@[j as int]@);
        if occurs_at(s, i, keys[j].as_str()) {
            proof {
                lemma_key_prefix(rest, views(keys@), j as int + 1, j as int);
            }
            return Some(j);
        }
        j = j + 1;
    }
    assert(views(keys@).subrange(0, keys@.len() as int) =~= views(keys@));
    None
}

proof fn lemma_key_prefix(s: Seq<char>, keys: Seq<Seq<char>>, j: int, k: int)
    requires
        0 <= j <= keys.len(),
        key_at(s, keys.subrange(0, j)) == Some(k),
    ensures
        key_at(s, keys) == Some(k),
    decreases keys.len() - j,
{
    if j < keys.len() {
        assert(keys.subrange(0, j + 1).drop_last() =~= keys.subrange(0, j));
        lemma_key_prefix(s, keys, j + 1, k);
    } else {
        assert(keys.subrange(0, j) =~= keys);
    }
}

/// `s` with the placeholders `keys` replaced by `vals` in a single pass.
pub fn substitute(s: &str, keys: &Vec<String>, vals: &Vec<String>) -> (r: String)
    requires
        keys@.len() == vals@.len(),
        forall|k: int| 0 <= k < keys@.len() ==> (#[trigger] keys@[k])@.len() > 0,
    ensures
        r@ == subst(s@, views(keys@), views(vals@)),
{
    let n = s.unicode_len();
    let mut out = String::new();
    let mut i: usize = 0;
    assert(s@.subrange(0, n as int) =~= s@);
    assert(out@ + subst(s@, views(keys@), views(vals@)) =~= subst(s@, views(keys@), views(vals@)));
    while i < n
        invariant
            n == s@.len(),
            i <= n,
            keys@.len() == vals@.len(),
            forall|k: int| 0 <= k < keys@.len() ==> (#[trigger] keys@[k])@.len() > 0,
            out@ + subst(s@.subrange(i as int, n as int), views(keys@), views(vals@))
                == subst(s@, views(keys@), views(vals@)),
        decreases n - i,
    {
        let ghost rest = s@.subrange(i as int, n as int);
        let ghost before = out@;
        match first_key_at(s, i, keys) {
            Some(k) => {
                proof {
                    lemma_key_at_range(rest, views(keys@));
                }
                let m = keys[k].unicode_len();
                assert(views(keys@)[k as int] == keys@[k as int]@);
                assert(m > 0);
                out.append(vals[k].as_str());
                assert(views(vals@)[k as int] == vals@[k as int]@);
                assert(rest.subrange(m as int, rest.len() as int) =~= s@.subrange(i + m, n as int));
                assert(before + (vals@[k as int]@ + subst(s@.subrange(i + m, n as int), views(keys@), views(vals@)))
                    =~= out@ + subst(s@.subrange(i + m, n as int), views(keys@), views(vals@)));
                i = i + m;
            },
            None => {
                let c = s.substring_char(i, i + 1);
                out.append(c);
                assert(rest.drop_first() =~= s@.subrange(i + 1, n as int));
                assert(c@ =~= seq![rest[0]]);
                assert(before + (c@ + subst(s@.subrange(i + 1, n as int), views(keys@), views(vals@)))
                    =~= out@ + subst(s@.subrange(i + 1, n as int), views(keys@), views(vals@)));
                i = i + 1;
            },
        }
    }
    assert(s@.subrange(n as int, n as int) =~= Seq::<char>::empty());
    out
}

} // verus!
