use vstd::prelude::*;

verus! {

/// The plain OSC 11 background-color query: `ESC ] 1 1 ; ?` followed by the
/// string terminator `ESC \`.
pub open spec fn plain_query() -> Seq<u8> {
    seq![0x1bu8, 0x5d, 0x31, 0x31, 0x3b, 0x3f, 0x1b, 0x5c]
}

/// The multiplexer passthrough form of the query: a `ESC P t m u x ;`
/// wrapper around the plain query with each of its `ESC` bytes doubled, so
/// the multiplexer forwards one literal `ESC` each to the underlying
/// terminal, closed by an outer `ESC \` terminator.
pub open spec fn passthrough_query() -> Seq<u8> {
    seq![
        0x1bu8,
        0x50,
        0x74,
        0x6d,
        0x75,
        0x78,
        0x3b,
        0x1b,
        0x1b,
        0x5d,
        0x31,
        0x31,
        0x3b,
        0x3f,
        0x1b,
        0x1b,
        0x5c,
        0x1b,
        0x5c,
    ]
}

/// The exact bytes of the background-color query to write to the terminal:
/// the passthrough-wrapped form if and only if the session runs inside a
/// terminal multiplexer, the plain form otherwise.
pub fn query_sequence(multiplexer: bool) -> (q: Vec<u8>)
    ensures
        multiplexer ==> q@ == passthrough_query(),
        !multiplexer ==> q@ == plain_query(),
{
    let q: Vec<u8> = if multiplexer {
        vec![
            0x1b,
            0x50,
            0x74,
            0x6d,
            0x75,
            0x78,
            0x3b,
            0x1b,
            0x1b,
            0x5d,
            0x31,
            0x31,
            0x3b,
            0x3f,
            0x1b,
            0x1b,
            0x5c,
            0x1b,
            0x5c,
        ]
    } else {
        vec![0x1b, 0x5d, 0x31, 0x31, 0x3b, 0x3f, 0x1b, 0x5c]
    };
    proof {
        if multiplexer {
            assert(q@ =~= passthrough_query());
        } else {
            assert(q@ =~= plain_query());
        }
    }
    q
}

} // verus!
