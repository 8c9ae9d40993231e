//! Output path construction and small path helpers, over sequences of chars.
use vstd::prelude::*;

verus! {

/// `s` without one trailing `/`, if it ends with one.
pub open spec fn strip_trailing_slash(s: Seq<char>) -> Seq<char> {
    if s.len() > 0 && s.last() == '/' {
        s.drop_last()
    } else {
        s
    }
}

/// `i` is the position of the last `/` in `s`.
pub open spec fn last_slash_at(s: Seq<char>, i: int) -> bool {
    &&& 0 <= i < s.len()
    &&& s[i] == '/'
    &&& forall|j: int| i < j < s.len() ==> s[j] != '/'
}

pub open spec fn has_slash(s: Seq<char>) -> bool {
    exists|i: int| 0 <= i < s.len() && s[i] == '/'
}

/// Everything before the last `/` and everything after it; with no `/`, an
/// empty head and the whole input as tail.
pub open spec fn split_last_slash(s: Seq<char>) -> (Seq<char>, Seq<char>) {
    if has_slash(s) {
        let i = choose|i: int| last_slash_at(s, i);
        (s.subrange(0, i), s.subrange(i + 1, s.len() as int))
    } else {
        (Seq::empty(), s)
    }
}

pub proof fn lemma_last_slash_exists(s: Seq<char>)
    requires
        has_slash(s),
    ensures
        exists|i: int| last_slash_at(s, i),
    decreases s.len(),
{
    if s.last() == '/' {
        assert(last_slash_at(s, s.len() - 1));
    } else {
        let t = s.drop_last();
        let k = choose|k: int| 0 <= k < s.len() && s[k] == '/';
        assert(t[k] == '/');
        lemma_last_slash_exists(t);
        let i = choose|i: int| last_slash_at(t, i);
        assert forall|j: int| i < j < s.len() implies s[j] != '/' by {
            if j < t.len() {
                assert(t[j] == s[j]);
            }
        }
        assert(last_slash_at(s, i));
    }
}

pub proof fn lemma_last_slash_unique(s: Seq<char>, i: int, j: int)
    requires
        last_slash_at(s, i),
        last_slash_at(s, j),
    ensures
        i == j,
{
}

/// The position of the last `/` in `s`, if there is one.
fn find_last_slash(s: &str) -> (r: Option<usize>)
    ensures
        r is Some <==> has_slash(s@),
        r matches Some(i) ==> last_slash_at(s@, i as int),
{
    let n = s.unicode_len();
    let mut i: usize = n;
    while i > 0
        invariant
            i <= n,
            n == s@.len(),
            forall|j: int| i <= j < n ==> s@[j] != '/',
        decreases i,
    {
        if s.get_char(i - 1) == '/' {
            return Some(i - 1);
        }
        i = i - 1;
    }
    None
}

/// Drops one trailing `/` from `input`, if present.
pub fn remove_trailing_slash(input: String) -> (r: String)
    ensures
        r@ == strip_trailing_slash(input@),
{
    let n = input.as_str().unicode_len();
    if n > 0 && input.as_str().get_char(n - 1) == '/' {
        String::from_str(input.as_str().substring_char(0, n - 1))
    } else {
        input
    }
}

/// Splits `input` at its last `/` into (directory part, last segment); with
/// no `/`, the directory part is empty and the segment is the whole input.
pub fn split_path(input: &str) -> (r: (String, String))
    ensures
        r.0@ == split_last_slash(input@).0,
        r.1@ == split_last_slash(input@).1,
{
    let n = input.unicode_len();
    match find_last_slash(input) {
        Some(i) => {
            proof {
                let c = choose|c: int| last_slash_at(input@, c);
                lemma_last_slash_unique(input@, i as int, c);
            }
            (
                String::from_str(input.substring_char(0, i)),
                String::from_str(input.substring_char(i + 1, n)),
            )
        },
        None => (String::new(), String::from_str(input)),
    }
}

/// The replacement of one char in an escaped path component.
pub open spec fn escape_char(c: char) -> Seq<char> {
    if c == ':' {
        seq!['%', '3', 'A']
    } else {
        seq![c]
    }
}

/// `s` with every `:` replaced by `%3A`.
pub open spec fn escape_colons(s: Seq<char>) -> Seq<char>
    decreases s.len(),
{
    if s.len() == 0 {
        Seq::empty()
    } else {
        escape_colons(s.drop_last()) + escape_char(s.last())
    }
}

/// `p` with its last component colon-escaped; the directory part is kept.
pub open spec fn escape_final_component(p: Seq<char>) -> Seq<char> {
    if has_slash(p) {
        split_last_slash(p).0 + seq!['/'] + escape_colons(split_last_slash(p).1)
    } else {
        escape_colons(p)
    }
}

/// Replaces every `:` of `s` by `%3A`.
pub fn escape_colons_of(s: &str) -> (r: String)
    ensures
        r@ == escape_colons(s@),
{
    let n = s.unicode_len();
    let mut r = String::new();
    let mut i: usize = 0;
    while i < n
        invariant
            n == s@.len(),
            i <= n,
            r@ == escape_colons(s@.subrange(0, i as int)),
        decreases n - i,
    {
        let c = s.get_char(i);
        proof {
            assert(s@.subrange(0, i + 1).drop_last() =~= s@.subrange(0, i as int));
        }
        if c == ':' {
            proof {
                reveal_strlit("%3A");
            }
            r.append("%3A");
            assert(r@ =~= escape_colons(s@.subrange(0, i + 1)));
        } else {
            r.append(s.substring_char(i, i + 1));
            assert(r@ =~= escape_colons(s@.subrange(0, i + 1)));
        }
        i = i + 1;
    }
    assert(s@.subrange(0, n as int) =~= s@);
    r
}

/// Colon-escapes the last component of `p`, leaving the directories as they are.
pub fn escape_final_component_of(p: &str) -> (r: String)
    ensures
        r@ == escape_final_component(p@),
{
    let (dir, name) = split_path(p);
    let escaped = escape_colons_of(name.as_str());
    if find_last_slash(p).is_some() {
        proof {
            reveal_strlit("/");
        }
        dir.concat("/").concat(escaped.as_str())
    } else {
        escaped
    }
}

/// Escaping leaves no `:`, and adds no `/`.
pub proof fn lemma_escape_colons_chars(s: Seq<char>)
    ensures
        forall|i: int| 0 <= i < escape_colons(s).len() ==> escape_colons(s)[i] != ':',
        !has_slash(s) ==> !has_slash(escape_colons(s)),
    decreases s.len(),
{
    if s.len() > 0 {
        let t = s.drop_last();
        lemma_escape_colons_chars(t);
        let e = escape_colons(t);
        let x = escape_char(s.last());
        assert(escape_colons(s) == e + x);
        assert forall|i: int| 0 <= i < escape_colons(s).len() implies escape_colons(s)[i] != ':' by {
            if i >= e.len() {
                assert(escape_colons(s)[i] == x[i - e.len()]);
            }
        }
        if !has_slash(s) {
            assert(!has_slash(t)) by {
                if has_slash(t) {
                    let k = choose|k: int| 0 <= k < t.len() && t[k] == '/';
                    assert(s[k] == '/');
                }
            }
            assert(s[s.len() - 1] != '/');
            assert forall|i: int| 0 <= i < escape_colons(s).len() implies escape_colons(s)[i] != '/' by {
                if i >= e.len() {
                    assert(escape_colons(s)[i] == x[i - e.len()]);
                } else {
                    assert(escape_colons(s)[i] == e[i]);
                }
            }
        }
    }
}

/// Path escaping: the last component of an escaped output path is the
/// original last component with every `:` replaced by `%3A`, and it holds no
/// `:`; the directory part is unchanged.
pub proof fn lemma_final_component_escaped(p: Seq<char>)
    ensures
        split_last_slash(escape_final_component(p)).0 == split_last_slash(p).0,
        split_last_slash(escape_final_component(p)).1 == escape_colons(split_last_slash(p).1),
        forall|i: int|
            0 <= i < split_last_slash(escape_final_component(p)).1.len() ==> split_last_slash(
                escape_final_component(p),
            ).1[i] != ':',
{
    let d = split_last_slash(p).0;
    let n = split_last_slash(p).1;
    let q = escape_final_component(p);
    if has_slash(p) {
        lemma_last_slash_exists(p);
        let i = choose|i: int| last_slash_at(p, i);
        assert(!has_slash(n)) by {
            if has_slash(n) {
                let k = choose|k: int| 0 <= k < n.len() && n[k] == '/';
                assert(p[i + 1 + k] == '/');
            }
        }
        lemma_escape_colons_chars(n);
        let e = escape_colons(n);
        assert(q == d + seq!['/'] + e);
        assert(last_slash_at(q, d.len() as int)) by {
            assert forall|j: int| d.len() < j < q.len() implies q[j] != '/' by {
                assert(q[j] == e[j - d.len() - 1]);
            }
        }
        assert(has_slash(q));
        let c = choose|c: int| last_slash_at(q, c);
        lemma_last_slash_unique(q, c, d.len() as int);
        assert(q.subrange(0, d.len() as int) =~= d);
        assert(q.subrange(d.len() as int + 1, q.len() as int) =~= e);
    } else {
        assert(n == p);
        lemma_escape_colons_chars(p);
        assert(q == escape_colons(p));
    }
}

} // verus!
