//! Bus addresses: the socket paths that an address names.

use vstd::prelude::*;
use vstd::slice::slice_subrange;

verus! {

/// The value of the byte `b` as a hexadecimal digit.
pub open spec fn hex_value(b: u8) -> Option<int> {
    if 0x30 <= b <= 0x39 {
        Some(b - 0x30)
    } else if 0x61 <= b <= 0x66 {
        Some(b - 0x61 + 10)
    } else if 0x41 <= b <= 0x46 {
        Some(b - 0x41 + 10)
    } else {
        None
    }
}

/// The bytes `s` with each `%` that two hexadecimal digits follow replaced,
/// together with them, by the byte that they are the number of.
pub open spec fn percent_decoded(s: Seq<u8>) -> Seq<u8>
    decreases s.len(),
{
    if s.len() == 0 {
        Seq::empty()
    } else if s[0] == 0x25 && s.len() >= 3 && hex_value(s[1]) is Some && hex_value(s[2]) is Some {
        seq![(hex_value(s[1])->0 * 16 + hex_value(s[2])->0) as u8] + percent_decoded(s.skip(3))
    } else {
        seq![s[0]] + percent_decoded(s.drop_first())
    }
}

/// `percent_encoding::percent_decode`, collected into a vector.
///
/// Trusted: the call replaces each `%` that two hexadecimal digits follow,
/// together with them, by the byte that they are the number of, and leaves
/// every other byte as it is.
#[verifier::external_body]
fn percent_decode(input: &[u8]) -> (out: Vec<u8>)
    ensures
        out@ == percent_decoded(input@),
{
    percent_encoding::percent_decode(input).collect()
}

/// The index of the first byte `sep` of `s` at or behind `from`, or the
/// length of `s` where there is none.
pub open spec fn index_of(s: Seq<u8>, from: int, sep: u8) -> int
    decreases s.len() - from,
{
    if from < 0 || from >= s.len() {
        s.len() as int
    } else if s[from] == sep {
        from
    } else {
        index_of(s, from + 1, sep)
    }
}

/// The bytes `path`.
pub open spec fn path_key() -> Seq<u8> {
    seq![0x70u8, 0x61u8, 0x74u8, 0x68u8]
}

/// The bytes `unix:`.
pub open spec fn unix_prefix() -> Seq<u8> {
    seq![0x75u8, 0x6eu8, 0x69u8, 0x78u8, 0x3au8]
}

/// The socket path that the pairs `s[from..end]` of an address give: the
/// pairs stand between commas, the key of a pair stands before its first
/// `=`, and the path is the value of the first pair whose key is `path`;
/// there is none where that pair has no value, or no pair has that key.
/// Keys and values are percent-decoded.
pub open spec fn path_among(s: Seq<u8>, from: int, end: int) -> Option<Seq<u8>>
    decreases end - from,
{
    if from < 0 || from > end || end > s.len() {
        None
    } else {
        let pair_end = index_of(s.take(end), from, 0x2c);
        let key_end = index_of(s.take(pair_end), from, 0x3d);
        if !(from <= key_end <= pair_end <= end) {
            None
        } else if percent_decoded(s.subrange(from, key_end)) == path_key() {
            if key_end < pair_end {
                Some(percent_decoded(s.subrange(key_end + 1, pair_end)))
            } else {
                None
            }
        } else if pair_end < end {
            path_among(s, pair_end + 1, end)
        } else {
            None
        }
    }
}

/// The socket path that the address `s[from..end]` gives, where its
/// transport is `unix`.
pub open spec fn unix_path(s: Seq<u8>, from: int, end: int) -> Option<Seq<u8>> {
    if 0 <= from && from + 5 <= end <= s.len() && s.subrange(from, from + 5) == unix_prefix() {
        path_among(s, from + 5, end)
    } else {
        None
    }
}

/// The socket paths that the addresses of `s` from `from` on give, in
/// order: the addresses stand between semicolons.
pub open spec fn socket_paths_from(s: Seq<u8>, from: int) -> Seq<Seq<u8>>
    decreases s.len() - from,
{
    if from < 0 || from > s.len() {
        Seq::empty()
    } else {
        let end = index_of(s, from, 0x3b);
        let here = match unix_path(s, from, end) {
            Some(p) => seq![p],
            None => Seq::empty(),
        };
        if from <= end < s.len() {
            here + socket_paths_from(s, end + 1)
        } else {
            here
        }
    }
}

/// The socket paths that the bus address `s` gives, in the order in which
/// they are to be tried.
pub open spec fn socket_paths(s: Seq<u8>) -> Seq<Seq<u8>> {
    socket_paths_from(s, 0)
}

/// The index of the first byte `sep` of `s[..end]` at or behind `from`, or
/// `end` where there is none.
fn find(s: &[u8], from: usize, end: usize, sep: u8) -> (r: usize)
    requires
        from <= end <= s@.len(),
    ensures
        r == index_of(s@.take(end as int), from as int, sep),
        from <= r <= end,
{
    let ghost t = s@.take(end as int);
    let mut i = from;
    while i < end && s[i] != sep
        invariant
            from <= i <= end <= s@.len(),
            t == s@.take(end as int),
            index_of(t, from as int, sep) == index_of(t, i as int, sep),
        decreases end - i,
    {
        i += 1;
    }
    i
}

/// Whether the bytes `s[from..end]` are the bytes `key`.
fn equals(s: &[u8], key: &[u8]) -> (r: bool)
    ensures
        r == (s@ == key@),
{
    if s.len() != key.len() {
        return false;
    }
    let mut i: usize = 0;
    while i < s.len()
        invariant
            i <= s@.len() == key@.len(),
            forall|j: int| 0 <= j < i ==> s@[j] == key@[j],
        decreases s.len() - i,
    {
        if s[i] != key[i] {
            return false;
        }
        i += 1;
    }
    assert(s@ =~= key@);
    true
}

/// The bytes `path`.
fn path_key_bytes() -> (r: Vec<u8>)
    ensures
        r@ == path_key(),
{
    let mut key: Vec<u8> = Vec::new();
    key.push(0x70);
    key.push(0x61);
    key.push(0x74);
    key.push(0x68);
    assert(key@ =~= path_key());
    key
}

/// The socket path that the pairs `s[from..end]` of an address give.
fn find_path(s: &[u8], from: usize, end: usize) -> (r: Option<Vec<u8>>)
    requires
        from <= end <= s@.len(),
    ensures
        match path_among(s@, from as int, end as int) {
            Some(p) => r matches Some(found) && found@ == p,
            None => r is None,
        },
{
    let key = path_key_bytes();
    let mut start = from;
    loop
        invariant
            from <= start <= end <= s@.len(),
            key@ == path_key(),
            path_among(s@, from as int, end as int) == path_among(s@, start as int, end as int),
        decreases end - start,
    {
        let pair_end = find(s, start, end, 0x2c);
        let key_end = find(s, start, pair_end, 0x3d);
        proof {
            assert(s@.take(end as int).take(pair_end as int) =~= s@.take(pair_end as int));
        }
        let decoded_key = percent_decode(slice_subrange(s, start, key_end));
        if equals(decoded_key.as_slice(), key.as_slice()) {
            if key_end < pair_end {
                return Some(percent_decode(slice_subrange(s, key_end + 1, pair_end)));
            } else {
                return None;
            }
        }
        if pair_end < end {
            start = pair_end + 1;
        } else {
            return None;
        }
    }
}

/// Whether `s[from..end]` starts with `unix:`.
fn has_unix_prefix(s: &[u8], from: usize, end: usize) -> (r: bool)
    requires
        from <= end <= s@.len(),
    ensures
        r == (from + 5 <= end && s@.subrange(from as int, from + 5) == unix_prefix()),
{
    if end - from < 5 {
        return false;
    }
    let r = s[from] == 0x75 && s[from + 1] == 0x6e && s[from + 2] == 0x69 && s[from + 3] == 0x78
        && s[from + 4] == 0x3a;
    proof {
        let piece = s@.subrange(from as int, from + 5);
        if r {
            assert(piece =~= unix_prefix());
        } else {
            assert(piece[0] == s@[from as int]);
            assert(piece[1] == s@[from + 1]);
            assert(piece[2] == s@[from + 2]);
            assert(piece[3] == s@[from + 3]);
            assert(piece[4] == s@[from + 4]);
        }
    }
    r
}

/// The socket paths that the bus address `address` gives, in the order in
/// which they are to be tried.
///
/// An address may hold several addresses between semicolons. Of each, only
/// the transport `unix` is known; its pairs stand between commas, and the
/// socket path is the percent-decoded value of the first pair whose
/// percent-decoded key is `path`.
pub fn socket_paths_of(address: &[u8]) -> (r: Vec<Vec<u8>>)
    ensures
        r@.len() == socket_paths(address@).len(),
        forall|i: int| 0 <= i < r@.len() ==> r@[i]@ == socket_paths(address@)[i],
{
    let mut paths: Vec<Vec<u8>> = Vec::new();
    let ghost mut found: Seq<Seq<u8>> = Seq::empty();
    let mut start: usize = 0;
    proof {
        assert(found + socket_paths_from(address@, 0) =~= socket_paths(address@));
    }
    loop
        invariant
            start <= address@.len(),
            paths@.len() == found.len(),
            forall|i: int| 0 <= i < paths@.len() ==> paths@[i]@ == found[i],
            socket_paths(address@) == found + socket_paths_from(address@, start as int),
        decreases address@.len() - start,
    {
        let end = find(address, start, address.len(), 0x3b);
        proof {
            assert(address@.take(address@.len() as int) =~= address@);
        }
        let ghost here = match unix_path(address@, start as int, end as int) {
            Some(p) => seq![p],
            None => Seq::empty(),
        };
        if has_unix_prefix(address, start, end) {
            match find_path(address, start + 5, end) {
                Some(path) => {
                    paths.push(path);
                },
                None => {},
            }
        }
        proof {
            let before = found;
            found = found + here;
            if end < address@.len() {
                assert(before + (here + socket_paths_from(address@, end + 1)) =~= found
                    + socket_paths_from(address@, end + 1));
            } else {
                assert(before + here =~= found);
            }
        }
        if end < address.len() {
            start = end + 1;
        } else {
            return paths;
        }
    }
}

} // verus!
