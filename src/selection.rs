use vstd::prelude::*;
use vstd::string::*;
use vstd::utf8::*;

verus! {

broadcast use vstd::utf8::encode_utf8_decode_utf8, vstd::utf8::encode_utf8_valid_utf8;

/// The bytes of `b` before its first `sep`; all of `b` where it holds none.
pub open spec fn before_first(b: Seq<u8>, sep: u8) -> Seq<u8>
    decreases b.len(),
{
    if b.len() == 0 {
        b
    } else if b[0] == sep {
        Seq::empty()
    } else {
        seq![b[0]] + before_first(b.drop_first(), sep)
    }
}

/// The non-empty pieces of `b` between occurrences of `sep`, in order.
pub open spec fn kept_pieces(b: Seq<u8>, sep: u8) -> Seq<Seq<u8>>
    decreases b.len(),
{
    let p = before_first(b, sep);
    let head = if p.len() > 0 {
        seq![p]
    } else {
        Seq::empty()
    };
    if p.len() >= b.len() {
        head
    } else {
        head + kept_pieces(b.subrange(p.len() as int + 1, b.len() as int), sep)
    }
}

/// A character with Unicode's White_Space property.
pub open spec fn is_white_space(c: char) -> bool {
    let u = c as u32;
    ||| 0x09 <= u <= 0x0d
    ||| u == 0x20
    ||| u == 0x85
    ||| u == 0xa0
    ||| u == 0x1680
    ||| 0x2000 <= u <= 0x200a
    ||| u == 0x2028
    ||| u == 0x2029
    ||| u == 0x202f
    ||| u == 0x205f
    ||| u == 0x3000
}

/// `s` without its leading whitespace.
pub open spec fn trim_start(s: Seq<char>) -> Seq<char>
    decreases s.len(),
{
    if s.len() > 0 && is_white_space(s[0]) {
        trim_start(s.drop_first())
    } else {
        s
    }
}

/// `s` without its trailing whitespace.
pub open spec fn trim_end(s: Seq<char>) -> Seq<char>
    decreases s.len(),
{
    if s.len() > 0 && is_white_space(s.last()) {
        trim_end(s.drop_last())
    } else {
        s
    }
}

/// `s` without its leading and trailing whitespace.
pub open spec fn trimmed(s: Seq<char>) -> Seq<char> {
    trim_end(trim_start(s))
}

/// Relies on str::trim, which removes leading and trailing characters with
/// the White_Space property.
#[verifier::external_body]
fn trim_str(s: &str) -> (r: String)
    ensures
        r@ == trimmed(s@),
{
    s.trim().to_string()
}

proof fn lemma_before_first(b: Seq<u8>, sep: u8, k: int)
    requires
        0 <= k <= b.len(),
        k == b.len() || b[k] == sep,
        forall|j: int| 0 <= j < k ==> b[j] != sep,
    ensures
        before_first(b, sep) == b.subrange(0, k),
    decreases b.len(),
{
    if b.len() == 0 {
        assert(b.subrange(0, 0) =~= b);
    } else if k == 0 {
        assert(b.subrange(0, 0) =~= Seq::<u8>::empty());
    } else {
        lemma_before_first(b.drop_first(), sep, k - 1);
        assert(b.subrange(0, k) =~= seq![b[0]] + b.drop_first().subrange(0, k - 1));
    }
}

/// Splits tool output into the selected entries: the non-empty pieces
/// between separators, each trimmed of surrounding whitespace.
pub fn split_selection(output: &str, separator: u8) -> (r: Vec<String>)
    requires
        separator < 0x80,
    ensures
        r@.len() == kept_pieces(output.spec_bytes(), separator).len(),
        forall|i: int|
            0 <= i < r@.len() ==> #[trigger] r@[i]@ == trimmed(
                decode_utf8(kept_pieces(output.spec_bytes(), separator)[i]),
            ),
{
    let mut out: Vec<String> = Vec::new();
    let mut rest: &str = output;
    let ghost whole = output.spec_bytes();
    let ghost mut done: Seq<Seq<u8>> = Seq::empty();
    loop
        invariant
            separator < 0x80,
            whole == output.spec_bytes(),
            kept_pieces(whole, separator) == done + kept_pieces(rest.spec_bytes(), separator),
            out@.len() == done.len(),
            forall|i: int| 0 <= i < out@.len() ==> #[trigger] out@[i]@ == trimmed(decode_utf8(done[i])),
        decreases rest.spec_bytes().len(),
    {
        let b = rest.as_bytes();
        let ghost rb = b@;
        let mut k: usize = 0;
        while k < b.len() && b[k] != separator
            invariant
                k <= b@.len(),
                forall|j: int| 0 <= j < k ==> b@[j] != separator,
            decreases b@.len() - k,
        {
            k = k + 1;
        }
        proof {
            lemma_before_first(rb, separator, k as int);
            encode_utf8_valid_utf8(rest@);
            if k < rb.len() {
                is_char_boundary_iff_not_is_continuation_byte(rb, k as int);
            } else {
                is_char_boundary_start_end_of_seq(rb);
            }
        }
        let (piece, tail) = rest.split_at(k);
        let ghost pb = rb.subrange(0, k as int);
        proof {
            assert(piece.spec_bytes() =~= pb);
            assert(decode_utf8(pb) == piece@);
        }
        let ghost old_done = done;
        if k > 0 {
            let t = trim_str(piece);
            out.push(t);
            proof {
                done = done.push(pb);
            }
        }
        proof {
            assert(forall|i: int| 0 <= i < out@.len() ==> #[trigger] out@[i]@ == trimmed(decode_utf8(done[i]))) by {
                assert forall|i: int| 0 <= i < out@.len() implies #[trigger] out@[i]@ == trimmed(decode_utf8(done[i])) by {
                    if i < old_done.len() {
                        assert(done[i] == old_done[i]);
                    }
                }
            }
        }
        if k == b.len() {
            proof {
                if k > 0 {
                    assert(kept_pieces(rb, separator) == seq![pb]);
                    assert(done =~= old_done + seq![pb]);
                } else {
                    assert(kept_pieces(rb, separator) =~= Seq::<Seq<u8>>::empty());
                    assert(done + Seq::<Seq<u8>>::empty() =~= done);
                }
            }
            return out;
        }
        let ghost tb = rb.subrange(k as int, rb.len() as int);
        proof {
            assert(tail.spec_bytes() =~= tb);
            valid_utf8_split(rb, k as int);
            assert(tb[0] == separator);
            reveal_with_fuel(is_char_boundary, 2);
            assert(is_char_boundary(tb, 1));
        }
        let (_, next) = tail.split_at(1);
        proof {
            assert(next.spec_bytes() =~= rb.subrange(k + 1, rb.len() as int));
            if k > 0 {
                assert(done =~= old_done + seq![pb]);
                assert(kept_pieces(rb, separator) == seq![pb] + kept_pieces(next.spec_bytes(), separator));
                assert(old_done + (seq![pb] + kept_pieces(next.spec_bytes(), separator)) =~= done + kept_pieces(next.spec_bytes(), separator));
            } else {
                assert(kept_pieces(rb, separator) =~= Seq::<Seq<u8>>::empty() + kept_pieces(next.spec_bytes(), separator));
            }
        }
        rest = next;
    }
}

} // verus!
