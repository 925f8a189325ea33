//! Byte-buffer scanning: finding the delimiter that ends a record field.
use vstd::prelude::*;

verus! {

/// When `i` is the position of the first `b` in `s`, `index_of_first`
/// agrees.
pub proof fn lemma_index_of_first_is(s: Seq<u8>, b: u8, i: int)
    requires
        0 <= i < s.len(),
        s[i] == b,
        forall|j: int| 0 <= j < i ==> s[j] != b,
    ensures
        s.index_of_first(b) == Some(i),
{
    s.index_of_first_ensures(b);
    assert(s.contains(b)) by {
        assert(0 <= i < s.len() && s[i] == b);
    }
    let k = s.index_of_first(b)->Some_0;
    assert(s[k] == b);
}

/// When no byte of `s` is `b`, `index_of_first` finds none.
pub proof fn lemma_index_of_first_none(s: Seq<u8>, b: u8)
    requires
        forall|j: int| 0 <= j < s.len() ==> s[j] != b,
    ensures
        s.index_of_first(b) == None::<int>,
{
    s.index_of_first_ensures(b);
    if s.index_of_first(b) is Some {
        let k = s.index_of_first(b)->Some_0;
        assert(s[k] == b);
    }
}

/// Finds the first occurrence of `b` in `data` at or after `from`,
/// reported as an absolute position.
pub fn find_byte(data: &[u8], from: usize, b: u8) -> (r: Option<usize>)
    requires
        from <= data@.len(),
    ensures
        match r {
            Some(i) => {
                &&& from <= i < data@.len()
                &&& data@[i as int] == b
                &&& forall|j: int| from <= j < i ==> data@[j] != b
                &&& data@.skip(from as int).index_of_first(b) == Some(i - from)
            },
            None => {
                &&& forall|j: int| from <= j < data@.len() ==> data@[j] != b
                &&& data@.skip(from as int).index_of_first(b) == None::<int>
            },
        },
{
    let n = data.len();
    let mut i: usize = from;
    while i < n
        invariant
            from <= i <= n,
            n == data@.len(),
            forall|j: int| from <= j < i ==> data@[j] != b,
        decreases n - i,
    {
        if data[i] == b {
            proof {
                let rest = data@.skip(from as int);
                assert(rest[i - from] == b);
                assert(forall|j: int| 0 <= j < i - from ==> rest[j] != b);
                lemma_index_of_first_is(rest, b, i - from);
            }
            return Some(i);
        }
        i = i + 1;
    }
    proof {
        let rest = data@.skip(from as int);
        assert(forall|j: int| 0 <= j < rest.len() ==> rest[j] != b);
        lemma_index_of_first_none(rest, b);
    }
    None
}

} // verus!
