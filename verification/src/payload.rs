//! The clipboard's file-drop payload: a fixed header, one path in 16-bit
//! units, least significant byte first, and a double terminator.

use vstd::prelude::*;

verus! {

/// The header of a payload: the offset of the path list (the header's own
/// length), the drop point `(0, 0)`, the flag for client-area coordinates,
/// and the flag set for wide characters; each a 32-bit little-endian value.
pub open spec fn header() -> Seq<u8> {
    seq![
        20u8, 0u8, 0u8, 0u8,
        0u8, 0u8, 0u8, 0u8,
        0u8, 0u8, 0u8, 0u8,
        0u8, 0u8, 0u8, 0u8,
        1u8, 0u8, 0u8, 0u8,
    ]
}

/// The low byte of a 16-bit unit.
pub open spec fn low_byte(unit: u16) -> u8 {
    (unit % 256) as u8
}

/// The high byte of a 16-bit unit.
pub open spec fn high_byte(unit: u16) -> u8 {
    (unit / 256) as u8
}

/// The 16-bit unit with the given low and high byte.
pub open spec fn unit_of(low: u8, high: u8) -> u16 {
    (low + 256 * high) as u16
}

/// The units of a path as bytes, low byte first.
pub open spec fn unit_bytes(path: Seq<u16>) -> Seq<u8> {
    Seq::new(
        2 * path.len(),
        |i: int|
            if i % 2 == 0 {
                low_byte(path[i / 2])
            } else {
                high_byte(path[i / 2])
            },
    )
}

/// The payload that names the one file at `path`: the header, the path, the
/// path's terminator and the terminator of the list.
pub open spec fn file_drop_payload(path: Seq<u16>) -> Seq<u8> {
    header() + unit_bytes(path) + seq![0u8, 0u8, 0u8, 0u8]
}

/// No unit of the path is zero, so that the terminator ends it.
pub open spec fn no_nul(path: Seq<u16>) -> bool {
    forall|i: int| 0 <= i < path.len() ==> #[trigger] path[i] != 0
}

/// The unit at position `i` of the path that `bytes` carries.
pub open spec fn unit_at(bytes: Seq<u8>, i: int) -> u16 {
    unit_of(bytes[20 + 2 * i], bytes[21 + 2 * i])
}

/// Number of units between the header and the double terminator.
pub open spec fn path_len(bytes: Seq<u8>) -> int {
    (bytes.len() - 24) / 2
}

/// The path that `bytes` carries.
pub open spec fn path_of(bytes: Seq<u8>) -> Seq<u16> {
    Seq::new(path_len(bytes) as nat, |i: int| unit_at(bytes, i))
}

/// Whether `bytes` is the payload of one path: the header is the expected
/// one, an even number of bytes follows, none of the path's units is zero,
/// and two zero units end it.
pub open spec fn is_file_drop(bytes: Seq<u8>) -> bool {
    &&& bytes.len() >= 24
    &&& bytes.len() % 2 == 0
    &&& bytes.subrange(0, 20) == header()
    &&& forall|i: int| 0 <= i < path_len(bytes) ==> #[trigger] unit_at(bytes, i) != 0
    &&& bytes.subrange(bytes.len() - 4, bytes.len() as int) == seq![0u8, 0u8, 0u8, 0u8]
}

/// Serializes the payload that names the one file at `path`.
pub fn build_file_drop(path: &[u16]) -> (payload: Vec<u8>)
    ensures
        payload@ == file_drop_payload(path@),
{
    let mut payload: Vec<u8> = vec![
        20u8, 0u8, 0u8, 0u8,
        0u8, 0u8, 0u8, 0u8,
        0u8, 0u8, 0u8, 0u8,
        0u8, 0u8, 0u8, 0u8,
        1u8, 0u8, 0u8, 0u8,
    ];
    assert(payload@ =~= header());
    let mut i: usize = 0;
    while i < path.len()
        invariant
            i <= path@.len(),
            payload@ == header() + unit_bytes(path@.subrange(0, i as int)),
        decreases path@.len() - i,
    {
        let unit: u16 = path[i];
        payload.push((unit % 256) as u8);
        payload.push((unit / 256) as u8);
        proof {
            let before = unit_bytes(path@.subrange(0, i as int));
            let after = unit_bytes(path@.subrange(0, i + 1));
            assert(after =~= before.push(low_byte(unit)).push(high_byte(unit)));
            assert(payload@ =~= header() + after);
        }
        i += 1;
    }
    payload.push(0u8);
    payload.push(0u8);
    payload.push(0u8);
    payload.push(0u8);
    proof {
        assert(path@.subrange(0, path@.len() as int) =~= path@);
        assert(payload@ =~= file_drop_payload(path@));
    }
    payload
}

/// Reads the path back out of a payload; `None` where `bytes` is not the
/// payload of one path.
pub fn parse_file_drop(bytes: &[u8]) -> (path: Option<Vec<u16>>)
    ensures
        path is Some <==> is_file_drop(bytes@),
        path matches Some(p) ==> p@ == path_of(bytes@),
{
    let n: usize = bytes.len();
    if n < 24 || n % 2 != 0 {
        return None;
    }
    if !(bytes[0] == 20 && bytes[1] == 0 && bytes[2] == 0 && bytes[3] == 0 && bytes[4] == 0
        && bytes[5] == 0 && bytes[6] == 0 && bytes[7] == 0 && bytes[8] == 0 && bytes[9] == 0
        && bytes[10] == 0 && bytes[11] == 0 && bytes[12] == 0 && bytes[13] == 0 && bytes[14] == 0
        && bytes[15] == 0 && bytes[16] == 1 && bytes[17] == 0 && bytes[18] == 0 && bytes[19]
        == 0) {
        proof {
            let head = bytes@.subrange(0, 20);
            assert(forall|k: int| 0 <= k < 20 ==> head[k] == bytes@[k]);
        }
        return None;
    }
    assert(bytes@.subrange(0, 20) =~= header());
    if !(bytes[n - 4] == 0 && bytes[n - 3] == 0 && bytes[n - 2] == 0 && bytes[n - 1] == 0) {
        proof {
            let tail = bytes@.subrange(n - 4, n as int);
            assert(forall|k: int| 0 <= k < 4 ==> tail[k] == bytes@[n - 4 + k]);
        }
        return None;
    }
    assert(bytes@.subrange(n - 4, n as int) =~= seq![0u8, 0u8, 0u8, 0u8]);
    let count: usize = (n - 24) / 2;
    let mut path: Vec<u16> = Vec::new();
    let mut i: usize = 0;
    while i < count
        invariant
            i <= count,
            n == bytes@.len(),
            n >= 24,
            count == path_len(bytes@),
            path@.len() == i,
            forall|k: int| 0 <= k < i ==> path@[k] == unit_at(bytes@, k),
            forall|k: int| 0 <= k < i ==> #[trigger] unit_at(bytes@, k) != 0,
        decreases count - i,
    {
        let low: u8 = bytes[20 + 2 * i];
        let high: u8 = bytes[21 + 2 * i];
        let unit: u16 = low as u16 + 256 * (high as u16);
        if unit == 0 {
            assert(unit_at(bytes@, i as int) == 0);
            return None;
        }
        path.push(unit);
        i += 1;
    }
    assert(path@ =~= path_of(bytes@));
    Some(path)
}

/// A path without a zero unit comes back from its payload unchanged.
pub proof fn lemma_payload_round_trip(path: Seq<u16>)
    requires
        no_nul(path),
    ensures
        is_file_drop(file_drop_payload(path)),
        path_of(file_drop_payload(path)) == path,
{
    let bytes = file_drop_payload(path);
    assert(bytes.len() == 24 + 2 * path.len());
    assert(bytes.subrange(0, 20) =~= header());
    assert(bytes.subrange(bytes.len() - 4, bytes.len() as int) =~= seq![0u8, 0u8, 0u8, 0u8]);
    assert(path_len(bytes) == path.len());
    assert forall|i: int| 0 <= i < path.len() implies #[trigger] unit_at(bytes, i) == path[i] by {
        assert(bytes[20 + 2 * i] == unit_bytes(path)[2 * i]);
        assert(bytes[21 + 2 * i] == unit_bytes(path)[2 * i + 1]);
    }
    assert(path_of(bytes) =~= path);
}

/// Whatever parses as a payload is the payload of the path it carries, and
/// that path has no zero unit.
pub proof fn lemma_parsed_payload_is_built(bytes: Seq<u8>)
    requires
        is_file_drop(bytes),
    ensures
        no_nul(path_of(bytes)),
        file_drop_payload(path_of(bytes)) == bytes,
{
    let path = path_of(bytes);
    let built = file_drop_payload(path);
    assert(built.len() == bytes.len());
    assert forall|k: int| 0 <= k < bytes.len() implies built[k] == bytes[k] by {
        if k < 20 {
            assert(bytes.subrange(0, 20)[k] == bytes[k]);
        } else if k >= bytes.len() - 4 {
            assert(bytes.subrange(bytes.len() - 4, bytes.len() as int)[k - (bytes.len() - 4)]
                == bytes[k]);
        } else {
            let j = k - 20;
            assert(built[k] == unit_bytes(path)[j]);
            assert(path[j / 2] == unit_at(bytes, j / 2));
        }
    }
    assert(built =~= bytes);
}

} // verus!
