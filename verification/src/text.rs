//! Character-level string operations that the rest of the library builds on.

use vstd::prelude::*;
use vstd::string::*;
use vstd::utf8::is_ascii_chars;

verus! {

broadcast use vstd::string::group_string_axioms;

/// `pat` occurs in `s` starting at position `i`.
pub open spec fn matches_at(s: Seq<char>, pat: Seq<char>, i: int) -> bool {
    &&& 0 <= i
    &&& i + pat.len() <= s.len()
    &&& s.subrange(i, i + pat.len()) == pat
}

/// `s` with each occurrence of the pattern `pat` replaced by `rep`, the
/// occurrences taken from the left and never overlapping. An empty pattern
/// occurs before each character and at the end.
pub open spec fn replace_all(s: Seq<char>, pat: Seq<char>, rep: Seq<char>) -> Seq<char>
    decreases s.len(),
{
    if s.len() == 0 {
        if pat.len() == 0 {
            rep
        } else {
            s
        }
    } else if pat.len() == 0 {
        rep + seq![s[0]] + replace_all(s.skip(1), pat, rep)
    } else if matches_at(s, pat, 0) {
        rep + replace_all(s.skip(pat.len() as int), pat, rep)
    } else {
        seq![s[0]] + replace_all(s.skip(1), pat, rep)
    }
}

/// `pat` occurs somewhere in `s`.
pub open spec fn occurs_in(s: Seq<char>, pat: Seq<char>) -> bool {
    exists|i: int| matches_at(s, pat, i)
}

/// Replacing a pattern that does not occur leaves the string as it is.
pub proof fn lemma_replace_absent(s: Seq<char>, pat: Seq<char>, rep: Seq<char>)
    requires
        !occurs_in(s, pat),
    ensures
        replace_all(s, pat, rep) == s,
    decreases s.len(),
{
    if pat.len() == 0 {
        assert(s.subrange(0, 0) =~= pat);
        assert(matches_at(s, pat, 0));
    }
    if pat.len() > 0 && s.len() > 0 {
        assert(!matches_at(s, pat, 0));
        let rest = s.skip(1);
        assert(!occurs_in(rest, pat)) by {
            if occurs_in(rest, pat) {
                let i = choose|i: int| matches_at(rest, pat, i);
                assert(s.subrange(i + 1, i + 1 + pat.len()) =~= rest.subrange(i, i + pat.len()));
                assert(matches_at(s, pat, i + 1));
            }
        }
        lemma_replace_absent(rest, pat, rep);
        assert(seq![s[0]] + rest =~= s);
    }
}

/// No character of `s` is an opening brace.
pub open spec fn brace_free(s: Seq<char>) -> bool {
    forall|j: int| 0 <= j < s.len() ==> #[trigger] s[j] != '{'
}

/// A pattern that starts with an opening brace occurs nowhere in text that
/// holds none.
pub proof fn lemma_brace_free_absent(s: Seq<char>, pat: Seq<char>)
    requires
        brace_free(s),
        pat.len() > 0,
        pat[0] == '{',
    ensures
        !occurs_in(s, pat),
{
    assert forall|i: int| !matches_at(s, pat, i) by {
        if matches_at(s, pat, i) {
            assert(s.subrange(i, i + pat.len())[0] == s[i]);
        }
    }
}

/// In text with a single opening-brace pattern between two brace-free parts,
/// replacing the pattern replaces just that occurrence.
pub proof fn lemma_replace_single(x: Seq<char>, y: Seq<char>, pat: Seq<char>, rep: Seq<char>)
    requires
        brace_free(x),
        brace_free(y),
        pat.len() > 0,
        pat[0] == '{',
    ensures
        replace_all(x + pat + y, pat, rep) == x + rep + y,
    decreases x.len(),
{
    let s = x + pat + y;
    if x.len() == 0 {
        assert(s =~= pat + y);
        assert(s.subrange(0, pat.len() as int) =~= pat);
        assert(s.skip(pat.len() as int) =~= y);
        lemma_brace_free_absent(y, pat);
        lemma_replace_absent(y, pat, rep);
        assert(x + rep + y =~= rep + y);
    } else {
        assert(s[0] == x[0]);
        assert(!matches_at(s, pat, 0)) by {
            if matches_at(s, pat, 0) {
                assert(s.subrange(0, pat.len() as int)[0] == s[0]);
            }
        }
        let x1 = x.skip(1);
        assert(brace_free(x1)) by {
            assert forall|j: int| 0 <= j < x1.len() implies x1[j] != '{' by {
                assert(x1[j] == x[j + 1]);
            }
        }
        assert(s.skip(1) =~= x1 + pat + y);
        lemma_replace_single(x1, y, pat, rep);
        assert(seq![x[0]] + (x1 + rep + y) =~= x + rep + y);
    }
}

/// Where the only two adjacent opening braces in a text begin the pattern
/// `p`, a pattern `q` that starts with two opening braces and then differs
/// from `p` occurs nowhere in it.
pub proof fn lemma_other_pattern_absent(x: Seq<char>, y: Seq<char>, p: Seq<char>, q: Seq<char>)
    requires
        brace_free(x),
        brace_free(y),
        p.len() >= 3,
        p[0] == '{',
        p[1] == '{',
        brace_free(p.skip(2)),
        q.len() >= 3,
        q[0] == '{',
        q[1] == '{',
        q[2] != p[2],
    ensures
        !occurs_in(x + p + y, q),
{
    let s = x + p + y;
    let xl = x.len() as int;
    assert forall|i: int| !matches_at(s, q, i) by {
        if matches_at(s, q, i) {
            let w = s.subrange(i, i + q.len());
            assert(w[0] == s[i] && w[1] == s[i + 1] && w[2] == s[i + 2]);
            if i < xl {
                assert(s[i] == x[i]);
            } else if i < xl + p.len() {
                if i == xl + 1 {
                    assert(s[i + 1] == p[2]);
                    assert(p.skip(2)[0] == p[2]);
                } else if i > xl + 1 {
                    assert(s[i] == p[i - xl]);
                    assert(p.skip(2)[i - xl - 2] == p[i - xl]);
                } else {
                    assert(s[i + 2] == p[2]);
                }
            } else {
                assert(s[i] == y[i - xl - p.len()]);
            }
        }
    }
}

/// Where `name` first occurs in `names`.
pub open spec fn position_of(names: Seq<Seq<char>>, name: Seq<char>) -> Option<int>
    decreases names.len(),
{
    if names.len() == 0 {
        None
    } else {
        match position_of(names.drop_last(), name) {
            Some(i) => Some(i),
            None => if names.last() == name {
                Some(names.len() - 1)
            } else {
                None
            },
        }
    }
}

/// What `position_of` finds: the first occurrence, or nothing where there is none.
pub proof fn lemma_position_of(names: Seq<Seq<char>>, name: Seq<char>)
    ensures
        position_of(names, name) matches Some(i) ==> {
            &&& 0 <= i < names.len()
            &&& names[i] == name
            &&& forall|j: int| 0 <= j < i ==> names[j] != name
        },
        position_of(names, name) is None <==> !names.contains(name),
    decreases names.len(),
{
    if names.len() > 0 {
        let init = names.drop_last();
        lemma_position_of(init, name);
        assert forall|j: int| 0 <= j < init.len() implies init[j] == names[j] by {}
        match position_of(init, name) {
            Some(i) => {
                assert(names[i] == name);
            },
            None => {
                assert forall|j: int| 0 <= j < init.len() implies names[j] != name by {
                    assert(init[j] == names[j]);
                    if names[j] == name {
                        assert(init.contains(name));
                    }
                }
                if names.last() != name {
                    assert forall|j: int| 0 <= j < names.len() implies names[j] != name by {}
                }
            },
        }
    }
}

/// Extending a list past a prefix that does not hold `name` keeps its position
/// undecided until `name` is met.
pub proof fn lemma_position_of_prefix(names: Seq<Seq<char>>, name: Seq<char>, k: int)
    requires
        0 <= k < names.len(),
        position_of(names.take(k), name) is None,
    ensures
        position_of(names.take(k + 1), name) == (if names[k] == name {
            Some(k)
        } else {
            None::<int>
        }),
{
    assert(names.take(k + 1).drop_last() =~= names.take(k));
}

/// A position found in a prefix is the position in the whole list.
pub proof fn lemma_position_of_extend(names: Seq<Seq<char>>, name: Seq<char>, k: int)
    requires
        0 <= k <= names.len(),
        position_of(names.take(k), name) is Some,
    ensures
        position_of(names, name) == position_of(names.take(k), name),
    decreases names.len() - k,
{
    if k < names.len() {
        assert(names.take(k + 1).drop_last() =~= names.take(k));
        lemma_position_of_extend(names, name, k + 1);
    } else {
        lemma_take_all(names);
    }
}

/// A full prefix is the list itself.
pub proof fn lemma_take_all<A>(s: Seq<A>)
    ensures
        s.take(s.len() as int) == s,
{
    assert(s.take(s.len() as int) =~= s);
}

/// The characters of a string slice, in order.
pub fn chars_of(s: &str) -> (v: Vec<char>)
    ensures
        v@ == s@,
{
    let mut v: Vec<char> = Vec::new();
    for c in it: s.chars()
        invariant
            it.seq() == s@,
            v@ == it.seq().take(it.index() as int),
    {
        v.push(c);
    }
    v
}

/// Whether the two string slices hold the same characters.
pub fn str_eq(a: &str, b: &str) -> (eq: bool)
    ensures
        eq == (a@ == b@),
{
    let va = chars_of(a);
    let vb = chars_of(b);
    if va.len() != vb.len() {
        return false;
    }
    let mut i: usize = 0;
    while i < va.len()
        invariant
            va@ == a@,
            vb@ == b@,
            va@.len() == vb@.len(),
            i <= va@.len(),
            forall|j: int| 0 <= j < i ==> va@[j] == vb@[j],
        decreases va@.len() - i,
    {
        if va[i] != vb[i] {
            return false;
        }
        i = i + 1;
    }
    assert(va@ =~= vb@);
    true
}

/// Whether `pat` occurs in `s` at position `i`.
fn matches_at_exec(s: &Vec<char>, pat: &Vec<char>, i: usize) -> (m: bool)
    ensures
        m == matches_at(s@, pat@, i as int),
{
    if i > s.len() || pat.len() > s.len() - i {
        return false;
    }
    let mut j: usize = 0;
    while j < pat.len()
        invariant
            i + pat@.len() <= s@.len(),
            s@.len() <= usize::MAX,
            j <= pat@.len(),
            forall|k: int| 0 <= k < j ==> s@[i + k] == pat@[k],
        decreases pat@.len() - j,
    {
        if s[i + j] != pat[j] {
            assert(s@.subrange(i as int, i + pat@.len())[j as int] != pat@[j as int]);
            return false;
        }
        j = j + 1;
    }
    assert(s@.subrange(i as int, i + pat@.len()) =~= pat@);
    true
}

/// `data` with `rep` put before each character and at the end, which is what
/// replacing the empty pattern does.
fn replace_empty(data: &str, rep: &str) -> (res: String)
    requires
        data@.len() > 0,
    ensures
        res@ == replace_all(data@, Seq::empty(), rep@),
{
    let n = chars_of(data).len();
    let mut res = String::new();
    let mut i: usize = 0;
    assert(data@.skip(0) =~= data@);
    while i < n
        invariant
            n == data@.len(),
            i <= n,
            res@ + replace_all(data@.skip(i as int), Seq::empty(), rep@) == replace_all(
                data@,
                Seq::empty(),
                rep@,
            ),
        decreases n - i,
    {
        let ghost rest = data@.skip(i as int);
        let ghost before = res@;
        assert(rest.skip(1) =~= data@.skip(i + 1));
        res.append(rep);
        res.append(data.substring_char(i, i + 1));
        assert(data@.subrange(i as int, i + 1) =~= seq![rest[0]]);
        assert(before + replace_all(rest, Seq::empty(), rep@) =~= res@ + replace_all(
            data@.skip(i + 1),
            Seq::empty(),
            rep@,
        ));
        i = i + 1;
    }
    assert(data@.skip(n as int) =~= Seq::<char>::empty());
    res.append(rep);
    res
}

/// `data` with every occurrence of `pat` replaced by `rep`, as `str::replace` does it.
pub fn replace(data: &str, pat: &str, rep: &str) -> (res: String)
    ensures
        res@ == replace_all(data@, pat@, rep@),
{
    let s = chars_of(data);
    let p = chars_of(pat);
    if p.len() == 0 {
        if s.len() == 0 {
            return String::from_str(rep);
        }
        assert(pat@ =~= Seq::<char>::empty());
        return replace_empty(data, rep);
    }
    let n = s.len();
    let plen = p.len();
    let mut res = String::new();
    let mut last: usize = 0;
    let mut i: usize = 0;
    assert(data@.skip(0) =~= data@);
    assert(res@ + data@.subrange(0, 0) =~= Seq::<char>::empty());
    while i < n
        invariant
            s@ == data@,
            p@ == pat@,
            n == s@.len(),
            plen == p@.len(),
            plen > 0,
            last <= i <= n,
            res@ + data@.subrange(last as int, i as int) + replace_all(data@.skip(i as int), pat@, rep@)
                == replace_all(data@, pat@, rep@),
        decreases n - i,
    {
        let ghost rest = data@.skip(i as int);
        if matches_at_exec(&s, &p, i) {
            assert(rest.subrange(0, plen as int) =~= data@.subrange(i as int, i + plen));
            assert(rest.skip(plen as int) =~= data@.skip(i + plen));
            let chunk = data.substring_char(last, i);
            res.append(chunk);
            res.append(rep);
            i = i + plen;
            last = i;
            assert(data@.subrange(last as int, i as int) =~= Seq::<char>::empty());
        } else {
            assert(!matches_at(rest, pat@, 0)) by {
                if matches_at(rest, pat@, 0) {
                    assert(rest.subrange(0, plen as int) =~= data@.subrange(i as int, i + plen));
                }
            }
            assert(rest.skip(1) =~= data@.skip(i + 1));
            assert(data@.subrange(last as int, i + 1) =~= data@.subrange(last as int, i as int) + seq![rest[0]]);
            i = i + 1;
        }
    }
    let chunk = data.substring_char(last, n);
    res.append(chunk);
    assert(data@.skip(n as int) =~= Seq::<char>::empty());
    res
}

/// What `str::to_lowercase` returns for a string of these characters.
pub uninterp spec fn lowercase_of(s: Seq<char>) -> Seq<char>;

/// Calls `str::to_lowercase` (std). The contract only names the result:
/// `lowercase_of` of the argument's characters. Which characters change, and
/// how, follows Unicode's case tables and is left unsaid.
#[verifier::external_body]
pub(crate) fn lowercase(s: &str) -> (res: String)
    ensures
        res@ == lowercase_of(s@),
{
    s.to_lowercase()
}

/// The upper-case ASCII letters, in order.
pub open spec fn upper_letters() -> Seq<char> {
    seq!['A', 'B', 'C', 'D', 'E', 'F', 'G', 'H', 'I', 'J', 'K', 'L', 'M', 'N', 'O', 'P', 'Q', 'R', 'S', 'T', 'U', 'V', 'W', 'X', 'Y', 'Z']
}

/// The lower-case ASCII letters, in order.
pub open spec fn lower_letters() -> Seq<char> {
    seq!['a', 'b', 'c', 'd', 'e', 'f', 'g', 'h', 'i', 'j', 'k', 'l', 'm', 'n', 'o', 'p', 'q', 'r', 's', 't', 'u', 'v', 'w', 'x', 'y', 'z']
}

/// An ASCII character in lower case: an upper-case letter becomes the
/// lower-case one, any other character stays.
pub open spec fn ascii_lower_char(c: char) -> char {
    if 'A' <= c && c <= 'Z' {
        lower_letters()[c as int - 65]
    } else {
        c
    }
}

/// A string in lower case, as `str::to_lowercase` makes it: ASCII text letter
/// by letter, any other text as `lowercase_of` names it.
pub open spec fn lower_case(s: Seq<char>) -> Seq<char> {
    if is_ascii_chars(s) {
        s.map_values(|c: char| ascii_lower_char(c))
    } else {
        lowercase_of(s)
    }
}

/// The letter tables hold the letters at their ASCII codes.
proof fn lemma_letter_tables()
    ensures
        forall|k: int| 0 <= k < 26 ==> #[trigger] upper_letters()[k] as int == 65 + k,
        forall|k: int| 0 <= k < 26 ==> #[trigger] lower_letters()[k] as int == 97 + k,
        upper_letters().len() == 26,
        lower_letters().len() == 26,
{
    assert forall|k: int| 0 <= k < 26 implies #[trigger] upper_letters()[k] as int == 65 + k
        && lower_letters()[k] as int == 97 + k by {
        if k == 0 {}
        else if k == 1 {}
        else if k == 2 {}
        else if k == 3 {}
        else if k == 4 {}
        else if k == 5 {}
        else if k == 6 {}
        else if k == 7 {}
        else if k == 8 {}
        else if k == 9 {}
        else if k == 10 {}
        else if k == 11 {}
        else if k == 12 {}
        else if k == 13 {}
        else if k == 14 {}
        else if k == 15 {}
        else if k == 16 {}
        else if k == 17 {}
        else if k == 18 {}
        else if k == 19 {}
        else if k == 20 {}
        else if k == 21 {}
        else if k == 22 {}
        else if k == 23 {}
        else if k == 24 {}
        else if k == 25 {}
    }
}

/// Lower-casing ASCII text keeps its length, turns each upper-case letter into
/// the letter 32 codes above it, and keeps every other character.
pub proof fn lemma_lower_case_ascii(s: Seq<char>)
    requires
        is_ascii_chars(s),
    ensures
        lower_case(s).len() == s.len(),
        is_ascii_chars(lower_case(s)),
        forall|i: int| 0 <= i < s.len() ==> {
            let c = #[trigger] s[i];
            if 'A' <= c && c <= 'Z' {
                lower_case(s)[i] as int == c as int + 32
            } else {
                lower_case(s)[i] == c
            }
        },
{
    lemma_letter_tables();
    assert forall|i: int| 0 <= i < s.len() implies {
        let c = #[trigger] s[i];
        if 'A' <= c && c <= 'Z' {
            lower_case(s)[i] as int == c as int + 32
        } else {
            lower_case(s)[i] == c
        }
    } by {
        let c = s[i];
        if 'A' <= c && c <= 'Z' {
            assert(lower_letters()[c as int - 65] as int == 97 + (c as int - 65));
        }
    }
    assert forall|i: int| 0 <= i < lower_case(s).len() implies '\0' <= #[trigger] lower_case(s)[i] <= '\u{7f}' by {
        let c = s[i];
        if 'A' <= c && c <= 'Z' {
            assert(lower_letters()[c as int - 65] as int == 97 + (c as int - 65));
        }
    }
}

/// Lower-casing ASCII text twice is lower-casing it once.
pub proof fn lemma_lower_case_idempotent_ascii(s: Seq<char>)
    requires
        is_ascii_chars(s),
    ensures
        lower_case(lower_case(s)) == lower_case(s),
{
    lemma_lower_case_ascii(s);
    let l = lower_case(s);
    lemma_lower_case_ascii(l);
    assert forall|i: int| 0 <= i < l.len() implies lower_case(l)[i] == l[i] by {
        let c = s[i];
        if 'A' <= c && c <= 'Z' {
            assert(!('A' <= l[i] && l[i] <= 'Z'));
        }
    }
    assert(lower_case(l) =~= l);
}

/// ASCII text in lower case: each upper-case letter replaced by its
/// lower-case one.
fn ascii_lowercase(s: &str) -> (res: String)
    requires
        is_ascii_chars(s@),
    ensures
        res@ == s@.map_values(|c: char| ascii_lower_char(c)),
{
    let letters = "abcdefghijklmnopqrstuvwxyz";
    proof {
        reveal_strlit("abcdefghijklmnopqrstuvwxyz");
        lemma_letter_tables();
        assert(letters@ =~= lower_letters());
    }
    let cs = chars_of(s);
    let n = cs.len();
    let mut res = String::new();
    let mut i: usize = 0;
    while i < n
        invariant
            cs@ == s@,
            n == s@.len(),
            letters@ == lower_letters(),
            lower_letters().len() == 26,
            i <= n,
            res@ == s@.take(i as int).map_values(|c: char| ascii_lower_char(c)),
        decreases n - i,
    {
        let c = cs[i];
        let ghost before = res@;
        if 'A' <= c && c <= 'Z' {
            let k = (c as u32 - 65) as usize;
            res.append(letters.substring_char(k, k + 1));
            assert(letters@.subrange(k as int, k + 1) =~= seq![ascii_lower_char(c)]);
        } else {
            res.append(s.substring_char(i, i + 1));
            assert(s@.subrange(i as int, i + 1) =~= seq![ascii_lower_char(c)]);
        }
        assert(s@.take(i + 1).map_values(|c: char| ascii_lower_char(c)) =~= before + seq![ascii_lower_char(c)]);
        i = i + 1;
    }
    assert(s@.take(n as int) =~= s@);
    res
}

/// A string in lower case, as `str::to_lowercase` makes it.
pub fn to_lower(s: &str) -> (res: String)
    ensures
        res@ == lower_case(s@),
{
    if s.is_ascii() {
        ascii_lowercase(s)
    } else {
        lowercase(s)
    }
}

} // verus!
