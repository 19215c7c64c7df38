//! File-name text helpers: extension extraction and lowercasing.
//!
//! The extension of a file name is the portion after the last `.`, provided
//! that dot is not the leading character (so `.profile` has no extension).
//! Extensionless names map to the empty string. Extensions are folded to
//! lowercase before they are used as histogram keys.

use vstd::prelude::*;

verus! {

/// The lowercase folding of a character sequence, as `str::to_lowercase`
/// computes it. The result depends on the characters alone.
pub uninterp spec fn lower_of(s: Seq<char>) -> Seq<char>;

/// Relies on `str::to_lowercase`: the result is the Unicode lowercase of the
/// input and is a function of the input characters alone; an empty string
/// stays empty.
#[verifier::external_body]
pub fn lowercase(s: &str) -> (r: String)
    ensures
        r@ == lower_of(s@),
        s@.len() == 0 ==> r@.len() == 0,
{
    s.to_lowercase()
}

/// Relies on `str::chars`: the characters of a string slice, in order
/// (the view of a `str` is exactly that character sequence).
#[verifier::external_body]
pub fn chars_of(s: &str) -> (r: Vec<char>)
    ensures
        r@ == s@,
{
    s.chars().collect()
}

/// Relies on `FromIterator<char> for String`: collecting characters yields
/// the string whose view is that character sequence.
#[verifier::external_body]
pub fn string_from_chars(v: &Vec<char>) -> (r: String)
    ensures
        r@ == v@,
{
    v.iter().collect()
}

/// Whether `name` holds a dot at some index other than the first position,
/// i.e. whether the name has an extension part at all.
pub open spec fn dotted(name: Seq<char>) -> bool
    decreases name.len(),
{
    if name.len() <= 1 {
        false
    } else if name.last() == '.' {
        true
    } else {
        dotted(name.drop_last())
    }
}

/// The extension of a file name: the characters after the last dot, empty
/// when the name has no dot past its first character.
pub open spec fn ext_of(name: Seq<char>) -> Seq<char>
    decreases name.len(),
{
    if name.len() <= 1 {
        Seq::empty()
    } else if name.last() == '.' {
        Seq::empty()
    } else if dotted(name.drop_last()) {
        ext_of(name.drop_last()).push(name.last())
    } else {
        Seq::empty()
    }
}

/// The histogram key of a file name: its lowercase extension, with the empty
/// key for extensionless names.
pub open spec fn ext_key(name: Seq<char>) -> Seq<char> {
    if ext_of(name).len() == 0 {
        Seq::empty()
    } else {
        lower_of(ext_of(name))
    }
}

pub proof fn lemma_dotted_iff(name: Seq<char>)
    ensures
        dotted(name) <==> exists|i: int| 1 <= i < name.len() && name[i] == '.',
    decreases name.len(),
{
    if name.len() <= 1 {
    } else if name.last() == '.' {
        assert(name[name.len() - 1] == '.');
    } else {
        lemma_dotted_iff(name.drop_last());
        if dotted(name.drop_last()) {
            let i = choose|i: int| 1 <= i < name.drop_last().len() && name.drop_last()[i] == '.';
            assert(name[i] == '.');
        } else {
            if exists|i: int| 1 <= i < name.len() && name[i] == '.' {
                let i = choose|i: int| 1 <= i < name.len() && name[i] == '.';
                assert(name.drop_last()[i] == '.');
            }
        }
    }
}

/// When the last dot of `name` stands at index `d > 0`, the extension is
/// exactly the characters after it.
pub proof fn lemma_ext_at_dot(name: Seq<char>, d: int)
    requires
        1 <= d < name.len(),
        name[d] == '.',
        forall|k: int| d < k < name.len() ==> name[k] != '.',
    ensures
        ext_of(name) == name.subrange(d + 1, name.len() as int),
    decreases name.len(),
{
    if d == name.len() - 1 {
        assert(name.last() == '.');
        assert(ext_of(name) =~= name.subrange(d + 1, name.len() as int));
    } else {
        assert(name.last() != '.');
        let prev = name.drop_last();
        assert(prev[d] == '.');
        lemma_dotted_iff(prev);
        assert(dotted(prev));
        lemma_ext_at_dot(prev, d);
        assert(ext_of(name) == ext_of(prev).push(name.last()));
        assert(ext_of(name) =~= name.subrange(d + 1, name.len() as int));
    }
}

/// A name without a dot past its first character has no extension.
pub proof fn lemma_ext_none(name: Seq<char>)
    requires
        forall|k: int| 1 <= k < name.len() ==> name[k] != '.',
    ensures
        ext_of(name) == Seq::<char>::empty(),
{
    lemma_dotted_iff(name);
    if name.len() <= 1 {
    } else {
        assert(name.last() != '.');
        lemma_dotted_iff(name.drop_last());
        assert(!dotted(name.drop_last()));
    }
}

/// The lowercase extension key of a file name, as the walker records it in
/// the histogram.
pub fn extension_key(name: &str) -> (r: String)
    ensures
        r@ == ext_key(name@),
{
    let cs = chars_of(name);
    let n = cs.len();
    let mut j: usize = n;
    let mut dot: usize = 0;
    let mut found = false;
    while j > 1 && !found
        invariant
            cs@ == name@,
            n == cs@.len(),
            j <= n,
            found ==> 1 <= dot < n && cs@[dot as int] == '.' && (forall|k: int|
                dot < k < n ==> cs@[k] != '.'),
            !found ==> forall|k: int| j <= k < n ==> cs@[k] != '.',
        decreases (j as int) + (if found { 0int } else { 1int }),
    {
        if cs[j - 1] == '.' {
            dot = j - 1;
            found = true;
        } else {
            j = j - 1;
        }
    }
    if found {
        let mut sub: Vec<char> = Vec::new();
        let mut k: usize = dot + 1;
        while k < n
            invariant
                cs@ == name@,
                n == cs@.len(),
                dot + 1 <= k <= n,
                sub@ == cs@.subrange(dot + 1, k as int),
            decreases n - k,
        {
            sub.push(cs[k]);
            assert(sub@ =~= cs@.subrange(dot + 1, k + 1));
            k = k + 1;
        }
        proof {
            lemma_ext_at_dot(name@, dot as int);
        }
        if sub.len() == 0 {
            String::new()
        } else {
            let raw = string_from_chars(&sub);
            lowercase(raw.as_str())
        }
    } else {
        proof {
            lemma_ext_none(name@);
        }
        String::new()
    }
}

} // verus!
