use vstd::prelude::*;

verus! {

// ---------------------------------------------------------------------------
// Lexicographic (code-point) order on character sequences, the order that
// `str` comparison uses for the name-sorted discovery output.
// ---------------------------------------------------------------------------

pub open spec fn lex_le(a: Seq<char>, b: Seq<char>) -> bool
    decreases a.len(),
{
    if a.len() == 0 {
        true
    } else if b.len() == 0 {
        false
    } else if a[0] == b[0] {
        lex_le(a.drop_first(), b.drop_first())
    } else {
        (a[0] as int) < (b[0] as int)
    }
}

pub proof fn lemma_lex_le_total(a: Seq<char>, b: Seq<char>)
    ensures
        lex_le(a, b) || lex_le(b, a),
    decreases a.len(),
{
    if a.len() == 0 || b.len() == 0 {
    } else if a[0] == b[0] {
        lemma_lex_le_total(a.drop_first(), b.drop_first());
    }
}

pub proof fn lemma_lex_le_trans(a: Seq<char>, b: Seq<char>, c: Seq<char>)
    requires
        lex_le(a, b),
        lex_le(b, c),
    ensures
        lex_le(a, c),
    decreases a.len(),
{
    if a.len() == 0 || b.len() == 0 || c.len() == 0 {
    } else if a[0] == b[0] && b[0] == c[0] {
        lemma_lex_le_trans(a.drop_first(), b.drop_first(), c.drop_first());
    }
}

/// String comparison in the ascending code-point order used for sorting.
pub fn str_le(a: &str, b: &str) -> (r: bool)
    ensures
        r == lex_le(a@, b@),
{
    let alen = a.unicode_len();
    let blen = b.unicode_len();
    let mut i: usize = 0;
    proof {
        assert(a@.skip(0) =~= a@);
        assert(b@.skip(0) =~= b@);
    }
    loop
        invariant
            i <= alen,
            i <= blen,
            alen == a@.len(),
            blen == b@.len(),
            lex_le(a@, b@) == lex_le(a@.skip(i as int), b@.skip(i as int)),
        decreases alen - i,
    {
        if i >= alen {
            proof {
                assert(a@.skip(i as int).len() == 0);
            }
            return true;
        }
        if i >= blen {
            proof {
                assert(b@.skip(i as int).len() == 0);
                assert(a@.skip(i as int).len() > 0);
            }
            return false;
        }
        let ca = a.get_char(i);
        let cb = b.get_char(i);
        proof {
            assert(a@.skip(i as int)[0] == a@[i as int]);
            assert(b@.skip(i as int)[0] == b@[i as int]);
        }
        if ca != cb {
            return (ca as u32) < (cb as u32);
        }
        proof {
            assert(a@.skip(i as int).drop_first() =~= a@.skip(i + 1));
            assert(b@.skip(i as int).drop_first() =~= b@.skip(i + 1));
        }
        i = i + 1;
    }
}

// ---------------------------------------------------------------------------
// ASCII-case-insensitive equality, the relation that alias names are matched
// under.
// ---------------------------------------------------------------------------

/// Two characters are equal up to ASCII case: either identical, or an ASCII
/// letter paired with its other-case form (code points 32 apart).
pub open spec fn ci_char_eq(a: char, b: char) -> bool {
    a == b || (('A' as int) <= (a as int) <= ('Z' as int) && (b as int) == (a as int) + 32) || ((
    'A' as int) <= (b as int) <= ('Z' as int) && (a as int) == (b as int) + 32)
}

pub open spec fn ci_eq(a: Seq<char>, b: Seq<char>) -> bool {
    a.len() == b.len() && (forall|i: int| 0 <= i < a.len() ==> ci_char_eq(a[i], b[i]))
}

pub fn char_ci_eq(a: char, b: char) -> (r: bool)
    ensures
        r == ci_char_eq(a, b),
{
    let ai = a as u32;
    let bi = b as u32;
    ai == bi || (65 <= ai && ai <= 90 && bi == ai + 32) || (65 <= bi && bi <= 90 && ai == bi + 32)
}

/// ASCII-case-insensitive string equality, as alias matching uses it.
pub fn str_ci_eq(a: &str, b: &str) -> (r: bool)
    ensures
        r == ci_eq(a@, b@),
{
    let alen = a.unicode_len();
    let blen = b.unicode_len();
    if alen != blen {
        return false;
    }
    let mut i: usize = 0;
    while i < alen
        invariant
            i <= alen,
            alen == a@.len(),
            alen == b@.len(),
            forall|j: int| 0 <= j < i ==> ci_char_eq(a@[j], b@[j]),
        decreases alen - i,
    {
        let ca = a.get_char(i);
        let cb = b.get_char(i);
        if !char_ci_eq(ca, cb) {
            return false;
        }
        i = i + 1;
    }
    true
}

// ---------------------------------------------------------------------------
// Bundle names and paths.
// ---------------------------------------------------------------------------

/// A directory-entry name that marks an application bundle: it ends in the
/// bundle suffix `.app`.
pub open spec fn is_bundle_name(s: Seq<char>) -> bool {
    s.len() >= 4 && s[s.len() - 4] == '.' && s[s.len() - 3] == 'a' && s[s.len() - 2] == 'p' && s[
        s.len() - 1] == 'p'
}

/// The display name of a bundle: the entry name with every trailing
/// repetition of the bundle suffix removed.
pub open spec fn strip_bundle(s: Seq<char>) -> Seq<char>
    decreases s.len(),
{
    if is_bundle_name(s) {
        strip_bundle(s.subrange(0, s.len() - 4))
    } else {
        s
    }
}

pub fn is_bundle_str(name: &str) -> (r: bool)
    ensures
        r == is_bundle_name(name@),
{
    let n = name.unicode_len();
    if n < 4 {
        return false;
    }
    name.get_char(n - 4) == '.' && name.get_char(n - 3) == 'a' && name.get_char(n - 2) == 'p'
        && name.get_char(n - 1) == 'p'
}

pub open spec fn begins_with_dot(s: Seq<char>) -> bool {
    s.len() > 0 && s[0] == '.'
}

pub fn begins_with_dot_str(name: &str) -> (r: bool)
    ensures
        r == begins_with_dot(name@),
{
    name.unicode_len() > 0 && name.get_char(0) == '.'
}

/// Strips every trailing repetition of the bundle suffix from a name.
pub fn strip_bundle_suffix(name: &str) -> (r: String)
    ensures
        r@ == strip_bundle(name@),
{
    let total = name.unicode_len();
    let mut end: usize = total;
    proof {
        assert(name@.subrange(0, total as int) =~= name@);
    }
    while end >= 4 && name.get_char(end - 4) == '.' && name.get_char(end - 3) == 'a'
        && name.get_char(end - 2) == 'p' && name.get_char(end - 1) == 'p'
        invariant
            end <= total,
            total == name@.len(),
            strip_bundle(name@) == strip_bundle(name@.subrange(0, end as int)),
        decreases end,
    {
        proof {
            let w = name@.subrange(0, end as int);
            assert(is_bundle_name(w));
            assert(w.subrange(0, w.len() - 4) =~= name@.subrange(0, end - 4));
        }
        end = end - 4;
    }
    proof {
        assert(!is_bundle_name(name@.subrange(0, end as int)));
    }
    let out = name.substring_char(0, end);
    out.to_owned()
}

/// Joins a directory path and an entry name with the path separator, the way
/// a scanned entry's absolute path is formed.
pub open spec fn path_join(dir: Seq<char>, name: Seq<char>) -> Seq<char> {
    dir + "/"@ + name
}

pub fn join_path(dir: &str, name: &str) -> (r: String)
    ensures
        r@ == path_join(dir@, name@),
{
    let mut s = dir.to_owned();
    s.append("/");
    s.append(name);
    s
}

} // verus!
