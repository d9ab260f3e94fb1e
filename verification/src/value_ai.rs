//! The file format of exported value networks. A `C4V1` file is the magic
//! bytes followed by the weights of an 84-128-128-1 network; a `C4V2` file has the
//! magic bytes, a little-endian 32-bit layer count and that many 32-bit layer
//! widths, then the weights. Weights are little-endian 32-bit floats, each layer's
//! matrix (output-major) followed by its biases.
use vstd::prelude::*;

verus! {

/// Weights of the legacy 84-128-128-1 network.
pub const WEIGHT_COUNT: usize = 27521;

/// The little-endian 32-bit number at byte `i`.
pub open spec fn le_u32(s: Seq<u8>, i: int) -> int {
    s[i] + 256 * s[i + 1] + 65536 * s[i + 2] + 16777216 * s[i + 3]
}

/// The four magic bytes `C4V` and `version`.
pub open spec fn has_magic(s: Seq<u8>, version: u8) -> bool {
    s.len() >= 4 && s[0] == 0x43u8 && s[1] == 0x34u8 && s[2] == 0x56u8 && s[3] == version
}

/// The layer widths a file declares, and where its weights start; `None` when
/// the header is malformed or cut short.
pub open spec fn header(s: Seq<u8>) -> Option<(Seq<usize>, int)> {
    if has_magic(s, 0x31u8) {
        Some((seq![84usize, 128usize, 128usize, 1usize], 4))
    } else if has_magic(s, 0x32u8) {
        if s.len() < 8 {
            None
        } else {
            let count = le_u32(s, 4);
            if count < 3 || count > 10 || s.len() < 8 + 4 * count {
                None
            } else {
                Some((Seq::new(count as nat, |i: int| le_u32(s, 8 + 4 * i) as usize), 8 + 4 * count))
            }
        }
    } else {
        None
    }
}

/// Weights (with biases) of the layers of widths `dims[..n]`.
pub open spec fn weights_of(dims: Seq<usize>, n: nat) -> int
    decreases n,
{
    if n < 2 {
        0
    } else {
        weights_of(dims, (n - 1) as nat) + dims[n - 2] * dims[n - 1] + dims[n - 1]
    }
}

/// Weights a network of layer widths `dims` has.
pub open spec fn weight_count(dims: Seq<usize>) -> int {
    weights_of(dims, dims.len())
}

/// Three to ten layers, 84 inputs, one output, every width in `1..=4096`.
pub open spec fn dimensions_ok(dims: Seq<usize>) -> bool {
    &&& 3 <= dims.len() <= 10
    &&& dims[0] == 84
    &&& dims.last() == 1
    &&& forall|i: int| 0 <= i < dims.len() ==> 1 <= #[trigger] dims[i] <= 4096
}

/// The layer widths and the start of the weights of a valid file; `None` for a
/// malformed one (before the weights themselves are read).
pub open spec fn layout(s: Seq<u8>) -> Option<(Seq<usize>, int)> {
    match header(s) {
        Some((dims, start)) => if (s.len() - start) % 4 == 0 && dimensions_ok(dims) && (s.len()
            - start) / 4 == weight_count(dims) {
            Some((dims, start))
        } else {
            None
        },
        None => None,
    }
}

/// The widths a `C4V2` file declares after its count.
pub open spec fn declared_widths(s: Seq<u8>, count: int) -> Seq<usize> {
    Seq::new(count as nat, |i: int| le_u32(s, 8 + 4 * i) as usize)
}

/// A `C4V2` file is accepted exactly when it declares from 3 to 10 layers, the
/// first 84 wide, the last 1 wide and each from 1 to 4096 wide, and the rest of
/// the file is exactly the network's weights, 4 bytes each; the layout then gives
/// those widths and the weights start after them.
pub proof fn lemma_layout_v2(s: Seq<u8>)
    requires
        s.len() >= 8,
        s[0] == 0x43u8,
        s[1] == 0x34u8,
        s[2] == 0x56u8,
        s[3] == 0x32u8,
    ensures
        ({
            let count = le_u32(s, 4);
            let start = 8 + 4 * count;
            (layout(s) is Some) <==> {
                &&& 3 <= count <= 10
                &&& s.len() >= start
                &&& le_u32(s, 8) == 84
                &&& le_u32(s, start - 4) == 1
                &&& forall|i: int| 0 <= i < count ==> 1 <= #[trigger] le_u32(s, 8 + 4 * i) <= 4096
                &&& (s.len() - start) % 4 == 0
                &&& (s.len() - start) / 4 == weight_count(declared_widths(s, count))
            }
        }),
        layout(s) is Some ==> layout(s) == Some(
            (declared_widths(s, le_u32(s, 4)), 8 + 4 * le_u32(s, 4)),
        ),
{
    let count = le_u32(s, 4);
    let start = 8 + 4 * count;
    let dims = declared_widths(s, count);
    if 3 <= count <= 10 && s.len() >= start {
        assert(header(s) == Some((dims, start)));
        assert forall|i: int| 0 <= i < count implies #[trigger] le_u32(s, 8 + 4 * i) < 0x1_0000_0000 by {
            assert(s[8 + 4 * i] < 256);
        }
        assert(dims[count - 1] == le_u32(s, 8 + 4 * (count - 1)) as usize);
        if forall|i: int| 0 <= i < count ==> 1 <= #[trigger] le_u32(s, 8 + 4 * i) <= 4096 {
            assert forall|i: int| 0 <= i < dims.len() implies 1 <= #[trigger] dims[i] <= 4096 by {
                assert(1 <= le_u32(s, 8 + 4 * i) <= 4096);
            }
        }
        if dimensions_ok(dims) {
            assert forall|i: int| 0 <= i < count implies 1 <= #[trigger] le_u32(s, 8 + 4 * i)
                <= 4096 by {
                assert(1 <= dims[i] <= 4096);
            }
            assert(le_u32(s, 8) == dims[0]);
            assert(le_u32(s, start - 4) == dims.last());
        }
    }
}

/// A `C4V1` file is accepted exactly when the magic bytes are followed by the
/// 27521 weights of the 84-128-128-1 network, 4 bytes each.
pub proof fn lemma_layout_v1(s: Seq<u8>)
    requires
        s.len() >= 4,
        s[0] == 0x43u8,
        s[1] == 0x34u8,
        s[2] == 0x56u8,
        s[3] == 0x31u8,
    ensures
        (layout(s) is Some) <==> s.len() == 4 + 4 * 27521,
        layout(s) is Some ==> layout(s) == Some(
            (seq![84usize, 128usize, 128usize, 1usize], 4int),
        ),
{
    let dims = seq![84usize, 128usize, 128usize, 1usize];
    assert(weight_count(dims) == 27521) by {
        reveal_with_fuel(weights_of, 5);
    }
    assert(dimensions_ok(dims));
}

/// Where the parts of a model file lie.
pub struct ModelLayout {
    /// Width of each layer, inputs first.
    pub dimensions: Vec<usize>,
    /// Offset of the first weight.
    pub weights_start: usize,
}

/// Reads the little-endian 32-bit number at byte `at`.
fn read_u32_le(bytes: &[u8], at: usize) -> (r: u32)
    requires
        at + 4 <= bytes@.len(),
    ensures
        r == le_u32(bytes@, at as int),
{
    let b0 = bytes[at] as u32;
    let b1 = bytes[at + 1] as u32;
    let b2 = bytes[at + 2] as u32;
    let b3 = bytes[at + 3] as u32;
    b0 + 256 * b1 + 65536 * b2 + 16777216 * b3
}

/// Whether a network with layer widths `dimensions` is well formed and has exactly
/// `weights` weights.
pub fn valid_dimensions(dimensions: &Vec<usize>, weights: usize) -> (r: bool)
    ensures
        r == (dimensions_ok(dimensions@) && weights == weight_count(dimensions@)),
{
    let n = dimensions.len();
    if n < 3 || n > 10 || dimensions[0] != 84 || dimensions[n - 1] != 1 {
        return false;
    }
    let mut i: usize = 0;
    while i < n
        invariant
            3 <= n <= 10,
            n == dimensions@.len(),
            i <= n,
            forall|j: int| 0 <= j < i ==> 1 <= #[trigger] dimensions@[j] <= 4096,
        decreases n - i,
    {
        if dimensions[i] == 0 || dimensions[i] > 4096 {
            return false;
        }
        i = i + 1;
    }
    let mut expected: usize = 0;
    let mut k: usize = 1;
    while k < n
        invariant
            3 <= n <= 10,
            n == dimensions@.len(),
            1 <= k <= n,
            forall|j: int| 0 <= j < n ==> 1 <= #[trigger] dimensions@[j] <= 4096,
            expected == weights_of(dimensions@, k as nat),
            expected <= (k - 1) * (4096 * 4096 + 4096),
        decreases n - k,
    {
        let inputs = dimensions[k - 1];
        let outputs = dimensions[k];
        proof {
            assert(inputs * outputs <= 4096 * 4096) by (nonlinear_arith)
                requires
                    1 <= inputs <= 4096,
                    1 <= outputs <= 4096,
            ;
            assert((k - 1) * (4096 * 4096 + 4096) <= 9 * (4096 * 4096 + 4096)) by (nonlinear_arith)
                requires
                    1 <= k < 10,
            ;
        }
        let ghost before = expected;
        expected = expected + inputs * outputs + outputs;
        proof {
            assert(expected <= k * (4096 * 4096 + 4096)) by (nonlinear_arith)
                requires
                    before <= (k - 1) * (4096 * 4096 + 4096),
                    expected == before + inputs * outputs + outputs,
                    inputs * outputs <= 4096 * 4096,
                    outputs <= 4096,
            ;
        }
        k = k + 1;
    }
    weights == expected
}

/// Reads the header of a model file and checks the sizes: `Some` exactly for the
/// files whose layer widths are valid and whose remaining bytes are that many
/// 32-bit weights.
pub fn parse_layout(bytes: &[u8]) -> (r: Option<ModelLayout>)
    ensures
        match r {
            Some(l) => layout(bytes@) == Some((l.dimensions@, l.weights_start as int)),
            None => layout(bytes@) is None,
        },
{
    let len = bytes.len();
    if len < 4 || bytes[0] != 0x43 || bytes[1] != 0x34 || bytes[2] != 0x56 {
        return None;
    }
    let mut dimensions: Vec<usize> = Vec::new();
    let start: usize;
    if bytes[3] == 0x31 {
        dimensions.push(84);
        dimensions.push(128);
        dimensions.push(128);
        dimensions.push(1);
        start = 4;
        proof {
            assert(dimensions@ =~= seq![84usize, 128usize, 128usize, 1usize]);
        }
    } else if bytes[3] == 0x32 {
        if len < 8 {
            return None;
        }
        let count = read_u32_le(bytes, 4);
        if count < 3 || count > 10 {
            return None;
        }
        let count = count as usize;
        let end = 8 + count * 4;
        if len < end {
            return None;
        }
        let mut i: usize = 0;
        while i < count
            invariant
                3 <= count <= 10,
                end == 8 + 4 * count,
                end <= bytes@.len(),
                i <= count,
                dimensions@.len() == i,
                forall|j: int|
                    0 <= j < i ==> #[trigger] dimensions@[j] == le_u32(bytes@, 8 + 4 * j) as usize,
            decreases count - i,
        {
            let width = read_u32_le(bytes, 8 + 4 * i);
            dimensions.push(width as usize);
            i = i + 1;
        }
        start = end;
        proof {
            let (dims, offset) = header(bytes@).unwrap();
            assert(dimensions@ =~= dims);
        }
    } else {
        return None;
    }
    if (len - start) % 4 != 0 {
        return None;
    }
    if !valid_dimensions(&dimensions, (len - start) / 4) {
        return None;
    }
    Some(ModelLayout { dimensions, weights_start: start })
}

} // verus!
