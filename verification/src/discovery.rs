//! Selection of input files by name: an input file is recognized by the
//! literal suffix `.syno.json` on its file name. Directory enumeration
//! itself is left to the caller; this module only decides which names
//! qualify.

use vstd::prelude::*;

verus! {

/// Holds when a file name ends with the literal suffix `.syno.json`.
pub open spec fn is_syno_file_name(s: Seq<char>) -> bool {
    &&& s.len() >= ".syno.json"@.len()
    &&& s.subrange(s.len() - ".syno.json"@.len(), s.len() as int) == ".syno.json"@
}

/// Decides whether one file name matches the input naming convention.
pub fn is_syno_docker_json_file(name: &str) -> (r: bool)
    ensures
        r == is_syno_file_name(name@),
{
    proof {
        reveal_strlit(".syno.json");
    }
    let n = name.unicode_len();
    if n < 10 {
        return false;
    }
    let mut k: usize = 0;
    while k < 10
        invariant
            k <= 10,
            ".syno.json"@.len() == 10,
            n == name@.len(),
            n >= 10,
            forall|j: int| 0 <= j < k ==> name@[n - 10 + j] == ".syno.json"@[j],
        decreases 10 - k,
    {
        proof {
            reveal_strlit(".syno.json");
        }
        let ca = name.get_char(n - 10 + k);
        let cb = ".syno.json".get_char(k);
        if ca != cb {
            proof {
                assert(name@.subrange(n - 10, n as int)[k as int] != ".syno.json"@[k as int]);
            }
            return false;
        }
        k = k + 1;
    }
    proof {
        assert(name@.subrange(n - 10, n as int) =~= ".syno.json"@);
    }
    true
}

/// Keeps, in order, exactly the names that match the input naming
/// convention.
pub fn filter_syno_file_names(names: &Vec<String>) -> (r: Vec<String>)
    ensures
        r.deep_view() == names.deep_view().filter(|s: Seq<char>| is_syno_file_name(s)),
{
    let ghost pred = |s: Seq<char>| is_syno_file_name(s);
    let mut r: Vec<String> = Vec::new();
    proof {
        reveal(Seq::filter);
        assert(names.deep_view().subrange(0, 0) =~= Seq::<Seq<char>>::empty());
    }
    let mut i: usize = 0;
    while i < names.len()
        invariant
            i <= names.len(),
            r.deep_view() == names.deep_view().subrange(0, i as int).filter(pred),
            pred == (|s: Seq<char>| is_syno_file_name(s)),
        decreases names.len() - i,
    {
        let ghost prefix = names.deep_view().subrange(0, i as int);
        let ghost next = names.deep_view().subrange(0, i + 1);
        proof {
            reveal(Seq::filter);
            assert(next.drop_last() =~= prefix);
            assert(next.last() == names.deep_view()[i as int]);
        }
        if is_syno_docker_json_file(names[i].as_str()) {
            let picked = names[i].clone();
            r.push(picked);
            proof {
                assert(r.deep_view() =~= prefix.filter(pred).push(names.deep_view()[i as int]));
            }
        }
        i = i + 1;
    }
    proof {
        assert(names.deep_view().subrange(0, names.len() as int) =~= names.deep_view());
    }
    r
}

} // verus!
