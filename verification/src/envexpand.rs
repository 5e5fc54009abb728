//! Expansion of `${NAME}` placeholders in configuration text.

use vstd::prelude::*;

verus! {

/// A byte that may start a variable name: an ASCII letter or `_`.
pub open spec fn is_name_start(b: u8) -> bool {
    (65 <= b && b <= 90) || (97 <= b && b <= 122) || b == 95
}

/// A byte that may continue a variable name: a name start or an ASCII digit.
pub open spec fn is_name_byte(b: u8) -> bool {
    is_name_start(b) || (48 <= b && b <= 57)
}

/// `t[s..e]` is a placeholder: `$`, `{`, a name of one or more name bytes starting
/// with a name start, then `}`.
pub open spec fn placeholder_at(t: Seq<u8>, s: int, e: int) -> bool {
    &&& 0 <= s
    &&& s + 4 <= e <= t.len()
    &&& t[s] == 36u8
    &&& t[s + 1] == 123u8
    &&& t[e - 1] == 125u8
    &&& is_name_start(t[s + 2])
    &&& forall|i: int| s + 3 <= i < e - 1 ==> is_name_byte(#[trigger] t[i])
}

/// `sp` lists every placeholder of `t`, left to right, without overlap.
pub open spec fn exact_spans(t: Seq<u8>, sp: Seq<(usize, usize)>) -> bool {
    &&& forall|i: int| 0 <= i < sp.len() ==> placeholder_at(t, (#[trigger] sp[i]).0 as int, sp[i].1 as int)
    &&& forall|i: int, j: int| 0 <= i < j < sp.len() ==> (#[trigger] sp[i]).1 <= (#[trigger] sp[j]).0
    &&& forall|s: int, e: int|
        #[trigger] placeholder_at(t, s, e) ==> exists|i: int|
            0 <= i < sp.len() && (#[trigger] sp[i]).0 == s && sp[i].1 == e
}

/// The placeholders of `t`, left to right (the only sequence that `exact_spans`
/// allows, see `lemma_exact_spans_unique`).
pub open spec fn placeholder_spans(t: Seq<u8>) -> Seq<(usize, usize)> {
    choose|sp: Seq<(usize, usize)>| exact_spans(t, sp)
}

/// The regular expression of a placeholder, as `placeholder_at` describes it.
pub const PLACEHOLDER_PATTERN: &'static str = r"\$\{([A-Za-z_][A-Za-z0-9_]*)\}";

/// The matches of `pattern` in `text`, as byte ranges (regex's
/// `bytes::Regex::new` and `bytes::Regex::find_iter`).
///
/// Trusted: the pattern is the placeholder expression, which compiles, so
/// `new` returns `Ok`. regex documents `find_iter` as yielding the successive
/// non-overlapping leftmost-first matches of the pattern, with `start <= end`
/// byte offsets into the haystack. Matches of this pattern cannot overlap one
/// another, so these are all its occurrences: the contract states that each range
/// is an occurrence, that the ranges come in order without overlap, and that
/// every occurrence is among them.
#[verifier::external_body]
fn find_matches(pattern: &str, text: &[u8]) -> (spans: Vec<(usize, usize)>)
    requires
        pattern@ == PLACEHOLDER_PATTERN@,
    ensures
        exact_spans(text@, spans@),
{
    regex::bytes::Regex::new(pattern).unwrap().find_iter(text).map(|m| (m.start(), m.end())).collect()
}

/// The placeholders of `text`, left to right.
fn find_placeholders(text: &[u8]) -> (spans: Vec<(usize, usize)>)
    ensures
        exact_spans(text@, spans@),
{
    find_matches(PLACEHOLDER_PATTERN, text)
}

/// Two sequences that both list the placeholders agree on their first `k` items.
proof fn lemma_exact_spans_prefix(
    t: Seq<u8>,
    a: Seq<(usize, usize)>,
    b: Seq<(usize, usize)>,
    k: int,
)
    requires
        exact_spans(t, a),
        exact_spans(t, b),
        0 <= k <= a.len(),
        k <= b.len(),
    ensures
        forall|i: int| 0 <= i < k ==> a[i] == b[i],
    decreases k,
{
    if k > 0 {
        lemma_exact_spans_prefix(t, a, b, k - 1);
        let x = a[k - 1];
        let y = b[k - 1];
        assert(placeholder_at(t, x.0 as int, x.1 as int));
        assert(placeholder_at(t, y.0 as int, y.1 as int));
        let j = choose|j: int| 0 <= j < b.len() && (#[trigger] b[j]).0 == x.0 && b[j].1 == x.1;
        let l = choose|l: int| 0 <= l < a.len() && (#[trigger] a[l]).0 == y.0 && a[l].1 == y.1;
        if j < k - 1 {
            assert(a[j] == b[j]);
            assert(a[j].1 <= a[k - 1].0);
        }
        if l < k - 1 {
            assert(a[l] == b[l]);
            assert(b[l].1 <= b[k - 1].0);
        }
        if j > k - 1 {
            assert(b[k - 1].1 <= b[j].0);
            if l > k - 1 {
                assert(a[k - 1].1 <= a[l].0);
            }
        }
        assert(a[k - 1] == b[k - 1]);
    }
}

/// Only one sequence lists the placeholders of a text.
pub proof fn lemma_exact_spans_unique(t: Seq<u8>, a: Seq<(usize, usize)>, b: Seq<(usize, usize)>)
    requires
        exact_spans(t, a),
        exact_spans(t, b),
    ensures
        a == b,
{
    if a.len() <= b.len() {
        lemma_exact_spans_prefix(t, a, b, a.len() as int);
        if a.len() < b.len() {
            let y = b[a.len() as int];
            assert(placeholder_at(t, y.0 as int, y.1 as int));
            let l = choose|l: int| 0 <= l < a.len() && (#[trigger] a[l]).0 == y.0 && a[l].1 == y.1;
            assert(a[l] == b[l]);
            assert(b[l].1 <= b[a.len() as int].0);
        }
    } else {
        lemma_exact_spans_prefix(t, a, b, b.len() as int);
        let x = a[b.len() as int];
        assert(placeholder_at(t, x.0 as int, x.1 as int));
        let j = choose|j: int| 0 <= j < b.len() && (#[trigger] b[j]).0 == x.0 && b[j].1 == x.1;
        assert(a[j] == b[j]);
        assert(a[j].1 <= a[b.len() as int].0);
    }
    assert(a =~= b);
}

/// The spans found in a text are its placeholders.
proof fn lemma_found_spans(t: Seq<u8>, sp: Seq<(usize, usize)>)
    requires
        exact_spans(t, sp),
    ensures
        placeholder_spans(t) == sp,
{
    lemma_exact_spans_unique(t, placeholder_spans(t), sp);
}

/// The variable name inside the placeholder `t[s..e]`.
pub open spec fn placeholder_name(t: Seq<u8>, s: int, e: int) -> Seq<u8> {
    t.subrange(s + 2, e - 1)
}

/// The names of the placeholders of `t`, left to right.
pub open spec fn placeholder_names_of(t: Seq<u8>) -> Seq<Seq<u8>> {
    let sp = placeholder_spans(t);
    Seq::new(sp.len(), |i: int| placeholder_name(t, sp[i].0 as int, sp[i].1 as int))
}

/// The names of the variables that `text` refers to with `${NAME}`, in order.
pub fn placeholder_names(text: &[u8]) -> (names: Vec<Vec<u8>>)
    ensures
        names@.len() == placeholder_names_of(text@).len(),
        forall|i: int| 0 <= i < names@.len() ==> (#[trigger] names@[i])@ == placeholder_names_of(text@)[i],
{
    let spans = find_placeholders(text);
    proof {
        lemma_found_spans(text@, spans@);
    }
    let mut names: Vec<Vec<u8>> = Vec::new();
    let mut k: usize = 0;
    while k < spans.len()
        invariant
            k <= spans@.len(),
            exact_spans(text@, spans@),
            placeholder_spans(text@) == spans@,
            names@.len() == k,
            forall|i: int| 0 <= i < k ==> (#[trigger] names@[i])@ == placeholder_names_of(text@)[i],
        decreases spans.len() - k,
    {
        let (s, e) = spans[k];
        proof {
            assert(placeholder_at(text@, spans@[k as int].0 as int, spans@[k as int].1 as int));
        }
        let mut name: Vec<u8> = Vec::new();
        append_range(&mut name, text, s + 2, e - 1);
        names.push(name);
        k = k + 1;
    }
    names
}

/// Appends `t[a..b]` to `out`.
fn append_range(out: &mut Vec<u8>, t: &[u8], a: usize, b: usize)
    requires
        a <= b <= t@.len(),
    ensures
        final(out)@ == old(out)@ + t@.subrange(a as int, b as int),
{
    let mut i: usize = a;
    while i < b
        invariant
            a <= i <= b <= t@.len(),
            out@ == old(out)@ + t@.subrange(a as int, i as int),
        decreases b - i,
    {
        out.push(t[i]);
        i = i + 1;
        assert(out@ =~= old(out)@ + t@.subrange(a as int, i as int));
    }
}

/// The value that `env` gives to `name`: the value of its first entry with that name.
pub open spec fn env_lookup(env: Seq<(Vec<u8>, Vec<u8>)>, name: Seq<u8>) -> Option<Seq<u8>>
    decreases env.len(),
{
    if env.len() == 0 {
        None
    } else if env[0].0@ == name {
        Some(env[0].1@)
    } else {
        env_lookup(env.drop_first(), name)
    }
}

/// What the placeholder `t[s..e]` becomes: the variable's value when `env` has
/// it, otherwise the placeholder itself, unchanged.
pub open spec fn replacement(t: Seq<u8>, s: int, e: int, env: Seq<(Vec<u8>, Vec<u8>)>) -> Seq<u8> {
    match env_lookup(env, placeholder_name(t, s, e)) {
        Some(v) => v,
        None => t.subrange(s, e),
    }
}

/// Where the text after the first `k` spans resumes.
pub open spec fn resume_at(sp: Seq<(usize, usize)>, k: int) -> int {
    if k == 0 {
        0
    } else {
        sp[k - 1].1 as int
    }
}

/// The expanded text up to the end of the first `k` spans.
pub open spec fn expanded_prefix(
    t: Seq<u8>,
    sp: Seq<(usize, usize)>,
    env: Seq<(Vec<u8>, Vec<u8>)>,
    k: int,
) -> Seq<u8>
    decreases k,
{
    if k <= 0 {
        Seq::empty()
    } else {
        expanded_prefix(t, sp, env, k - 1) + t.subrange(resume_at(sp, k - 1), sp[k - 1].0 as int)
            + replacement(t, sp[k - 1].0 as int, sp[k - 1].1 as int, env)
    }
}

/// `t` with every placeholder replaced as `replacement` says and all other bytes
/// kept.
pub open spec fn expanded(t: Seq<u8>, env: Seq<(Vec<u8>, Vec<u8>)>) -> Seq<u8> {
    let sp = placeholder_spans(t);
    expanded_prefix(t, sp, env, sp.len() as int) + t.subrange(resume_at(sp, sp.len() as int), t.len() as int)
}

/// Looks a name up in `env`.
fn lookup_env(env: &Vec<(Vec<u8>, Vec<u8>)>, name: &Vec<u8>) -> (r: Option<usize>)
    ensures
        match r {
            Some(i) => i < env@.len() && env_lookup(env@, name@) == Some(env@[i as int].1@),
            None => env_lookup(env@, name@) is None,
        },
{
    let mut i: usize = 0;
    assert(env@.skip(0) =~= env@);
    while i < env.len()
        invariant
            i <= env@.len(),
            env_lookup(env@, name@) == env_lookup(env@.skip(i as int), name@),
        decreases env.len() - i,
    {
        proof {
            assert(env@.skip(i as int).drop_first() =~= env@.skip(i + 1));
            assert(env@.skip(i as int)[0] == env@[i as int]);
        }
        if bytes_equal(&env[i].0, name) {
            return Some(i);
        }
        i = i + 1;
    }
    None
}

/// Byte-wise equality.
pub fn bytes_equal(a: &Vec<u8>, b: &Vec<u8>) -> (r: bool)
    ensures
        r == (a@ == b@),
{
    if a.len() != b.len() {
        return false;
    }
    let mut i: usize = 0;
    while i < a.len()
        invariant
            a@.len() == b@.len(),
            i <= a@.len(),
            forall|j: int| 0 <= j < i ==> a@[j] == b@[j],
        decreases a.len() - i,
    {
        if a[i] != b[i] {
            return false;
        }
        i = i + 1;
    }
    assert(a@ =~= b@);
    true
}

/// Replaces each `${NAME}` in `text` by the value that `env` holds for `NAME`;
/// a placeholder whose variable `env` lacks stays as it is.
pub fn expand_env_vars(text: &[u8], env: &Vec<(Vec<u8>, Vec<u8>)>) -> (out: Vec<u8>)
    ensures
        out@ == expanded(text@, env@),
        env@.len() == 0 ==> out@ == text@,
        placeholder_spans(text@).len() == 0 ==> out@ == text@,
{
    let spans = find_placeholders(text);
    proof {
        lemma_found_spans(text@, spans@);
    }
    let ghost sp = spans@;
    let mut out: Vec<u8> = Vec::new();
    let mut pos: usize = 0;
    let mut k: usize = 0;
    while k < spans.len()
        invariant
            k <= sp.len(),
            spans@ == sp,
            exact_spans(text@, sp),
            placeholder_spans(text@) == sp,
            pos as int == resume_at(sp, k as int),
            pos <= text@.len(),
            k < sp.len() ==> pos <= sp[k as int].0,
            out@ == expanded_prefix(text@, sp, env@, k as int),
        decreases spans.len() - k,
    {
        let (s, e) = spans[k];
        proof {
            assert(placeholder_at(text@, sp[k as int].0 as int, sp[k as int].1 as int));
        }
        append_range(&mut out, text, pos, s);
        let mut name: Vec<u8> = Vec::new();
        append_range(&mut name, text, s + 2, e - 1);
        match lookup_env(env, &name) {
            Some(i) => {
                let v = &env[i].1;
                append_range(&mut out, v.as_slice(), 0, v.len());
                proof {
                    assert(v@.subrange(0, v@.len() as int) =~= v@);
                }
            },
            None => {
                append_range(&mut out, text, s, e);
            },
        }
        pos = e;
        k = k + 1;
        proof {
            if k < sp.len() {
                assert(sp[k - 1].1 <= sp[k as int].0);
            }
        }
    }
    append_range(&mut out, text, pos, text.len());
    proof {
        if env@.len() == 0 {
            lemma_unset_kept(text@, sp, env@, sp.len() as int);
        }
        assert(text@.subrange(0, text@.len() as int) =~= text@);
    }
    out
}

/// When no placeholder has a value in `env`, the expanded text up to the end of
/// the first `k` spans is the text itself.
proof fn lemma_unset_kept(t: Seq<u8>, sp: Seq<(usize, usize)>, env: Seq<(Vec<u8>, Vec<u8>)>, k: int)
    requires
        exact_spans(t, sp),
        0 <= k <= sp.len(),
        forall|i: int| 0 <= i < sp.len() ==> env_lookup(env, placeholder_name(t, #[trigger] sp[i].0 as int, sp[i].1 as int)) is None,
    ensures
        expanded_prefix(t, sp, env, k) == t.subrange(0, resume_at(sp, k)),
    decreases k,
{
    if k > 0 {
        lemma_unset_kept(t, sp, env, k - 1);
        let (s, e) = sp[k - 1];
        assert(placeholder_at(t, s as int, e as int));
        if k > 1 {
            assert(sp[k - 2].1 <= sp[k - 1].0);
        }
        assert(t.subrange(0, resume_at(sp, k - 1)) + t.subrange(resume_at(sp, k - 1), s as int) + t.subrange(s as int, e as int)
            =~= t.subrange(0, e as int));
    }
}

} // verus!
