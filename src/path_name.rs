use vstd::prelude::*;
use vstd::string::*;

verus! {

/// The part of `p` after its last `sep`; all of `p` where it holds none.
pub open spec fn after_last(p: Seq<u8>, sep: u8) -> Seq<u8>
    decreases p.len(),
{
    if p.len() == 0 {
        p
    } else if p.last() == sep {
        Seq::empty()
    } else {
        after_last(p.drop_last(), sep).push(p.last())
    }
}

/// The final name of a path: its last `/`-separated component that is
/// neither empty nor `.`; empty where there is none.
pub open spec fn file_name(p: Seq<u8>) -> Seq<u8>
    decreases p.len(),
{
    let c = after_last(p, 0x2f);
    if c.len() == 0 || c == seq![0x2eu8] {
        if c.len() < p.len() {
            file_name(p.subrange(0, p.len() - c.len() - 1))
        } else {
            Seq::empty()
        }
    } else {
        c
    }
}

/// The extension `ect`, with its dot.
pub open spec fn ect_suffix() -> Seq<u8> {
    seq![0x2eu8, 0x65u8, 0x63u8, 0x74u8]
}

/// A path names a container: its file name has something before the dot
/// of a final `.ect`, so that the extension is `ect`.
pub open spec fn names_container(p: Seq<u8>) -> bool {
    let name = file_name(p);
    name.len() > 4 && name.subrange(name.len() - 4, name.len() as int) == ect_suffix()
}

proof fn lemma_after_last(p: Seq<u8>, sep: u8, k: int)
    requires
        0 <= k <= p.len(),
        k == 0 || p[k - 1] == sep,
        forall|j: int| k <= j < p.len() ==> p[j] != sep,
    ensures
        after_last(p, sep) == p.subrange(k, p.len() as int),
    decreases p.len(),
{
    if p.len() == k {
        assert(p.subrange(k, k) =~= Seq::<u8>::empty());
    } else {
        lemma_after_last(p.drop_last(), sep, k);
        assert(p.subrange(k, p.len() as int) =~= p.drop_last().subrange(k, p.len() - 1).push(p.last()));
    }
}

/// Whether `path` names a container file: its extension is `ect`.
pub fn is_encrypted_file(path: &str) -> (r: bool)
    ensures
        r == names_container(path.spec_bytes()),
{
    let b = path.as_bytes();
    let ghost p = b@;
    assert(p == path.spec_bytes());
    let mut end: usize = b.len();
    assert(p.subrange(0, end as int) =~= p);
    loop
        invariant
            end <= b@.len(),
            b@ == p,
            p == path.spec_bytes(),
            file_name(p) == file_name(p.subrange(0, end as int)),
        decreases end,
    {
        let mut start: usize = end;
        while start > 0 && b[start - 1] != 0x2f
            invariant
                start <= end <= b@.len(),
                forall|j: int| start <= j < end ==> b@[j] != 0x2f,
            decreases start,
        {
            start = start - 1;
        }
        let ghost q = p.subrange(0, end as int);
        proof {
            lemma_after_last(q, 0x2f, start as int);
            assert(q.subrange(start as int, end as int) =~= p.subrange(start as int, end as int));
        }
        let dot = end - start == 1 && b[start] == 0x2e;
        proof {
            if end - start == 1 {
                if p.subrange(start as int, end as int) == seq![0x2eu8] {
                    assert(p.subrange(start as int, end as int)[0] == p[start as int]);
                }
            }
            if dot {
                assert(p.subrange(start as int, end as int) =~= seq![0x2eu8]);
            }
        }
        if end == start || dot {
            if start == 0 {
                assert(q.subrange(0, end as int) =~= q);
                assert(file_name(q) == Seq::<u8>::empty());
                return false;
            }
            proof {
                assert(q.subrange(0, q.len() - (end - start) - 1) =~= p.subrange(0, start - 1));
            }
            end = start - 1;
        } else {
            proof {
                assert(file_name(p) == p.subrange(start as int, end as int));
            }
            let ghost name = p.subrange(start as int, end as int);
            if end - start > 4 && b[end - 4] == 0x2e && b[end - 3] == 0x65 && b[end - 2] == 0x63
                && b[end - 1] == 0x74 {
                assert(name.subrange(name.len() - 4, name.len() as int) =~= ect_suffix());
                return true;
            } else {
                proof {
                    if name.len() > 4 && name.subrange(name.len() - 4, name.len() as int) == ect_suffix() {
                        let s = name.subrange(name.len() - 4, name.len() as int);
                        assert(s[0] == b@[end - 4]);
                        assert(s[1] == b@[end - 3]);
                        assert(s[2] == b@[end - 2]);
                        assert(s[3] == b@[end - 1]);
                    }
                }
                return false;
            }
        }
    }
}

} // verus!
