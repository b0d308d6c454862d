use vstd::prelude::*;
use vstd::std_specs::iter::IteratorSpec;

verus! {

/// No line break anywhere in `t`.
pub open spec fn single_line(t: Seq<char>) -> bool {
    forall|k: int| 0 <= k < t.len() ==> t[k] != '\n'
}

/// The characters of `s`, in order.
pub fn chars_of(s: &str) -> (r: Vec<char>)
    ensures
        r@ == s@,
{
    let mut it = s.chars();
    let mut r: Vec<char> = Vec::new();
    loop
        invariant
            r@ + it.remaining() == s@,
            it.decrease() is Some,
        decreases it.decrease()->0,
    {
        match it.next() {
            Some(c) => {
                r.push(c);
            },
            None => {
                return r;
            },
        }
    }
}

/// Whether `c` holds no line break.
pub fn is_single_line(c: &Vec<char>) -> (r: bool)
    ensures
        r == single_line(c@),
{
    let mut k: usize = 0;
    while k < c.len()
        invariant
            k <= c.len(),
            forall|j: int| 0 <= j < k ==> c@[j] != '\n',
        decreases c.len() - k,
    {
        if c[k] == '\n' {
            return false;
        }
        k += 1;
    }
    true
}

/// The characters of `s` from position `from` up to, not including, `to`, as a new string.
pub fn substring(s: &str, from: usize, to: usize) -> (r: String)
    requires
        from <= to <= s@.len(),
    ensures
        r@ == s@.subrange(from as int, to as int),
{
    s.substring_char(from, to).to_owned()
}

/// Whether the characters of `c` from `from` up to `to` are those of `word`.
pub fn range_equals(c: &Vec<char>, from: usize, to: usize, word: &Vec<char>) -> (r: bool)
    requires
        from <= to <= c.len(),
    ensures
        r == (c@.subrange(from as int, to as int) == word@),
{
    if to - from != word.len() {
        return false;
    }
    let mut k: usize = 0;
    while k < word.len()
        invariant
            k <= word.len(),
            to - from == word.len(),
            from <= to <= c.len(),
            forall|j: int| 0 <= j < k ==> c@[from + j] == word@[j],
        decreases word.len() - k,
    {
        if c[from + k] != word[k] {
            return false;
        }
        k += 1;
    }
    assert(c@.subrange(from as int, to as int) =~= word@);
    true
}

} // verus!
