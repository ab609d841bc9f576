use vstd::prelude::*;
use std::collections::HashMap;
use crate::text::{
    chars_of, decimal, digits_value, extend_chars, find_first, first_at, is_digit, lemma_decimal_parses,
    lemma_first_at, lemma_first_at_from_search, occurs_at, parse_usize, parse_usize_spec, push_char,
    split_chars, split_spec, string_of, unsigned_body, usize_to_string,
};

verus! {

/// The value of a hexadecimal digit of either case.
pub open spec fn hex_value(c: char) -> nat {
    if '0' <= c && c <= '9' {
        (c as u32 - 48) as nat
    } else if 'a' <= c && c <= 'f' {
        (c as u32 - 87) as nat
    } else {
        (c as u32 - 55) as nat
    }
}

/// A hexadecimal digit of either case.
pub open spec fn is_hex_digit(c: char) -> bool {
    ('0' <= c && c <= '9') || ('a' <= c && c <= 'f') || ('A' <= c && c <= 'F')
}

/// The number the hexadecimal digits of `s` spell.
pub open spec fn hex_digits_value(s: Seq<char>) -> nat
    decreases s.len(),
{
    if s.len() == 0 {
        0
    } else {
        hex_digits_value(s.drop_last()) * 16 + hex_value(s.last())
    }
}

/// What `u64::from_str_radix(s, 16)` accepts: an optional `+`, then one
/// or more hexadecimal digits of either case, spelling a number that fits
/// a `u64`.
pub open spec fn parse_hex_u64_spec(s: Seq<char>) -> Option<nat> {
    let body = unsigned_body(s);
    if body.len() == 0 || exists|i: int| 0 <= i < body.len() && !is_hex_digit(#[trigger] body[i]) {
        None
    } else if hex_digits_value(body) <= u64::MAX {
        Some(hex_digits_value(body))
    } else {
        None
    }
}

/// The lower-case hexadecimal digit for `d` (below sixteen).
pub open spec fn hex_char(d: nat) -> char {
    if d < 10 {
        ((d + 48) as u32) as char
    } else {
        ((d + 87) as u32) as char
    }
}

/// `n` in lower-case hexadecimal, as `{:x}` writes it.
pub open spec fn hex_spec(n: nat) -> Seq<char>
    decreases n,
{
    if n < 16 {
        seq![hex_char(n)]
    } else {
        hex_spec(n / 16).push(hex_char(n % 16))
    }
}

proof fn lemma_hex_digits_grow(s: Seq<char>, c: char)
    requires
        is_hex_digit(c),
    ensures
        hex_digits_value(s.push(c)) >= hex_digits_value(s),
        hex_digits_value(s.push(c)) == hex_digits_value(s) * 16 + hex_value(c),
{
    assert(s.push(c).drop_last() =~= s);
}

/// Reads a `u64` in hexadecimal, as `u64::from_str_radix(s, 16)` does.
pub fn parse_hex_u64(s: &str) -> (r: Option<u64>)
    ensures
        match parse_hex_u64_spec(s@) {
            Some(v) => r == Some(v as u64),
            None => r is None,
        },
{
    let cs = chars_of(s);
    let start: usize = if cs.len() > 0 && cs[0] == '+' { 1 } else { 0 };
    let ghost body = unsigned_body(s@);
    proof {
        assert(body =~= cs@.skip(start as int));
    }
    if start >= cs.len() {
        return None;
    }
    let mut acc: u64 = 0;
    let mut overflow = false;
    let mut i: usize = start;
    while i < cs.len()
        invariant
            cs@ == s@,
            body == unsigned_body(s@),
            body == cs@.skip(start as int),
            start <= i <= cs@.len(),
            forall|j: int| start <= j < i ==> is_hex_digit(#[trigger] cs@[j]),
            !overflow ==> acc == hex_digits_value(cs@.subrange(start as int, i as int)),
            overflow ==> hex_digits_value(cs@.subrange(start as int, i as int)) > u64::MAX,
        decreases cs@.len() - i,
    {
        let c = cs[i];
        let d: u64 = if '0' <= c && c <= '9' {
            (c as u32 - 48) as u64
        } else if 'a' <= c && c <= 'f' {
            (c as u32 - 87) as u64
        } else if 'A' <= c && c <= 'F' {
            (c as u32 - 55) as u64
        } else {
            proof {
                assert(body[i - start] == c);
                assert(!is_hex_digit(body[i - start]));
                assert(exists|j: int| 0 <= j < body.len() && !is_hex_digit(#[trigger] body[j]));
            }
            return None;
        };
        let ghost pre = cs@.subrange(start as int, i as int);
        proof {
            assert(cs@.subrange(start as int, i + 1) =~= pre.push(c));
            lemma_hex_digits_grow(pre, c);
        }
        if !overflow {
            match acc.checked_mul(16) {
                Some(m) => match m.checked_add(d) {
                    Some(v) => {
                        acc = v;
                    },
                    None => {
                        overflow = true;
                    },
                },
                None => {
                    overflow = true;
                },
            }
        }
        i = i + 1;
    }
    proof {
        assert(cs@.subrange(start as int, i as int) =~= body);
        assert forall|j: int| 0 <= j < body.len() implies is_hex_digit(#[trigger] body[j]) by {
            assert(body[j] == cs@[j + start]);
        }
    }
    if overflow {
        None
    } else {
        Some(acc)
    }
}

/// Writes `n` in lower-case hexadecimal, as `format!("{:x}", n)` does.
pub fn u64_to_hex(n: u64) -> (r: String)
    ensures
        r@ == hex_spec(n as nat),
    decreases n,
{
    let mut s = if n < 16 {
        String::new()
    } else {
        u64_to_hex(n / 16)
    };
    let d = (n % 16) as u32;
    let c = if d < 10 {
        char_of_code(d + 48)
    } else {
        char_of_code(d + 87)
    };
    assert(c == hex_char((n % 16) as nat));
    push_char(&mut s, c);
    assert(s@ =~= hex_spec(n as nat));
    s
}

fn char_of_code(code: u32) -> (c: char)
    requires
        48 <= code <= 102,
    ensures
        c as u32 == code,
{
    (code as u8) as char
}

/// Hexadecimal spellings are hex digits, never `_`, and read back as the
/// number.
pub proof fn lemma_hex_parses(n: nat)
    ensures
        hex_spec(n).len() >= 1,
        forall|i: int| 0 <= i < hex_spec(n).len() ==> is_hex_digit(#[trigger] hex_spec(n)[i]),
        hex_digits_value(hex_spec(n)) == n,
    decreases n,
{
    let r = n % 16;
    assert(r < 16);
    if n >= 16 {
        lemma_hex_parses(n / 16);
        let d = hex_spec(n / 16);
        assert(hex_spec(n).drop_last() =~= d);
        assert(n == (n / 16) * 16 + n % 16) by (nonlinear_arith);
        assert(hex_spec(n).last() == hex_char(r));
        assert(hex_digits_value(hex_spec(n)) == hex_digits_value(d) * 16 + hex_value(hex_char(r)));
        assert forall|i: int| 0 <= i < hex_spec(n).len() implies is_hex_digit(#[trigger] hex_spec(n)[i]) by {
            if i < d.len() {
                assert(hex_spec(n)[i] == d[i]);
            }
        }
    } else {
        assert(hex_spec(n).drop_last() =~= Seq::<char>::empty());
        assert(hex_spec(n).last() == hex_char(r));
        assert(hex_digits_value(hex_spec(n)) == hex_digits_value(Seq::<char>::empty()) * 16 + hex_value(hex_char(r)));
    }
}

/// A tab whose cached pages are worth keeping: the document it shows and
/// the page it is on.
#[derive(Clone, Debug)]
pub struct UsefulCacheEntry {
    pub file_path: String,
    pub current_page: usize,
}

/// Size above which the oldest cache files are purged: 200 MiB.
pub const MAX_DISK_BYTES: u64 = 209715200;

/// The on-disk cache of rendered pages: one file per page render, named by
/// the document's hash, the page, the zoom and a render tag, holding an
/// eight-byte little-endian width and height header and the RGBA bytes.
pub struct DiskCache {
    cache_dir: String,
}

/// The name of the file a page render is cached in.
pub open spec fn entry_name_spec(path_hash: u64, page_index: usize, zoom_key: u32, suffix: Seq<char>) -> Seq<char> {
    hex_spec(path_hash as nat) + seq!['_'] + decimal(page_index as nat) + seq!['_'] + decimal(zoom_key as nat)
        + seq!['_'] + suffix + ".raw"@
}

/// The pages kept around the page a tab shows: two before it, three after.
pub open spec fn retention_window_spec(current_page: usize) -> (usize, usize) {
    (if current_page >= 2 { (current_page - 2) as usize } else { 0 }, (current_page + 3) as usize)
}

/// The windows kept per document hash: each tab's window under its
/// document's hash, a later tab on the same document replacing an earlier.
pub open spec fn allowed_windows_spec(tabs: Seq<(u64, usize)>) -> Map<u64, (usize, usize)>
    decreases tabs.len(),
{
    if tabs.len() == 0 {
        Map::empty()
    } else {
        allowed_windows_spec(tabs.drop_last()).insert(tabs.last().0, retention_window_spec(tabs.last().1))
    }
}

/// A cache file survives retention when its name has at least three
/// `_`-separated parts, the first a hexadecimal document hash with a kept
/// window, the second a page inside that window.
pub open spec fn keeps_entry_spec(name: Seq<char>, allowed: Map<u64, (usize, usize)>) -> bool {
    let parts = split_spec(name, seq!['_']);
    &&& parts.len() >= 3
    &&& match (parse_hex_u64_spec(parts[0]), parse_usize_spec(parts[1])) {
        (Some(h), Some(p)) => {
            &&& allowed.contains_key(h as u64)
            &&& allowed[h as u64].0 <= p <= allowed[h as u64].1
        },
        _ => false,
    }
}

/// A cache file belongs to the document of hash `path_hash` when its name
/// starts with the hash in hexadecimal and `_`.
pub open spec fn belongs_to_spec(name: Seq<char>, path_hash: u64) -> bool {
    occurs_at(name, hex_spec(path_hash as nat) + seq!['_'], 0)
}

/// The eight header bytes of a cache file: width, then height, little-endian.
pub open spec fn header_spec(width: u32, height: u32) -> Seq<u8> {
    seq![
        (width % 256) as u8,
        ((width / 256) % 256) as u8,
        ((width / 65536) % 256) as u8,
        (width / 16777216) as u8,
        (height % 256) as u8,
        ((height / 256) % 256) as u8,
        ((height / 65536) % 256) as u8,
        (height / 16777216) as u8,
    ]
}

/// The number four little-endian bytes spell.
pub open spec fn le_u32(b0: u8, b1: u8, b2: u8, b3: u8) -> nat {
    b0 as nat + 256 * b1 as nat + 65536 * b2 as nat + 16777216 * b3 as nat
}

/// The bytes a cached image of `width` by `height` pixels holds after its
/// header.
pub open spec fn frame_len_spec(width: u32, height: u32) -> int {
    width as int * height as int * 4
}

impl DiskCache {
    /// A cache kept in the directory `cache_dir`.
    pub fn new(cache_dir: String) -> (r: Self)
        ensures
            r.dir() == cache_dir@,
    {
        DiskCache { cache_dir }
    }

    pub closed spec fn dir(&self) -> Seq<char> {
        self.cache_dir@
    }

    /// The directory the cache files live in.
    pub fn cache_dir(&self) -> (r: &str)
        ensures
            r@ == self.dir(),
    {
        self.cache_dir.as_str()
    }

    /// The file name a page render is cached under: the document hash in
    /// hexadecimal, the page, the zoom key (hundredths) and the tag, joined
    /// by `_`, with the extension `.raw`.
    pub fn entry_name(path_hash: u64, page_index: usize, zoom_key: u32, suffix: &str) -> (r: String)
        ensures
            r@ == entry_name_spec(path_hash, page_index, zoom_key, suffix@),
    {
        let mut v = chars_of(u64_to_hex(path_hash).as_str());
        v.push('_');
        extend_chars(&mut v, &chars_of(usize_to_string(page_index).as_str()));
        v.push('_');
        extend_chars(&mut v, &chars_of(usize_to_string(zoom_key as usize).as_str()));
        v.push('_');
        extend_chars(&mut v, &chars_of(suffix));
        extend_chars(&mut v, &chars_of(".raw"));
        assert(v@ =~= entry_name_spec(path_hash, page_index, zoom_key, suffix@));
        string_of(&v)
    }

    /// The pages kept for a tab on `current_page`.
    pub fn retention_window(current_page: usize) -> (r: (usize, usize))
        requires
            current_page + 3 <= usize::MAX,
        ensures
            r == retention_window_spec(current_page),
    {
        (current_page.saturating_sub(2), current_page + 3)
    }

    /// The window kept for each document hash, from the open tabs given as
    /// (document hash, current page).
    pub fn allowed_windows(tabs: &Vec<(u64, usize)>) -> (r: HashMap<u64, (usize, usize)>)
        requires
            forall|i: int| 0 <= i < tabs@.len() ==> #[trigger] tabs@[i].1 + 3 <= usize::MAX,
        ensures
            r@ == allowed_windows_spec(tabs@),
    {
        broadcast use vstd::std_specs::hash::group_hash_axioms;
        let mut m: HashMap<u64, (usize, usize)> = HashMap::new();
        let mut i: usize = 0;
        assert(tabs@.take(0) =~= Seq::<(u64, usize)>::empty());
        while i < tabs.len()
            invariant
                forall|j: int| 0 <= j < tabs@.len() ==> #[trigger] tabs@[j].1 + 3 <= usize::MAX,
                i <= tabs@.len(),
                m@ == allowed_windows_spec(tabs@.take(i as int)),
            decreases tabs@.len() - i,
        {
            let (h, page) = tabs[i];
            assert(tabs@[i as int].1 + 3 <= usize::MAX);
            let w = DiskCache::retention_window(page);
            m.insert(h, w);
            proof {
                assert(tabs@.take(i + 1).drop_last() =~= tabs@.take(i as int));
                assert(tabs@.take(i + 1).last() == tabs@[i as int]);
            }
            i = i + 1;
        }
        assert(tabs@.take(i as int) =~= tabs@);
        m
    }

    /// Whether the cache file `name` survives retention under `allowed`.
    pub fn keeps_entry(name: &str, allowed: &HashMap<u64, (usize, usize)>) -> (r: bool)
        ensures
            r == keeps_entry_spec(name@, allowed@),
    {
        broadcast use vstd::std_specs::hash::group_hash_axioms;
        let n = chars_of(name);
        let sep = vec!['_'];
        assert(sep@ =~= seq!['_']);
        let parts = split_chars(&n, &sep);
        let ghost pv = parts@.map_values(|v: Vec<char>| v@);
        if parts.len() < 3 {
            return false;
        }
        assert(pv[0] == parts@[0]@);
        assert(pv[1] == parts@[1]@);
        let hash = parse_hex_u64(string_of(&parts[0]).as_str());
        let page = parse_usize(string_of(&parts[1]).as_str());
        match (hash, page) {
            (Some(h), Some(p)) => match allowed.get(&h) {
                Some(w) => w.0 <= p && p <= w.1,
                None => false,
            },
            _ => false,
        }
    }

    /// Whether the cache file `name` belongs to the document of hash
    /// `path_hash`.
    pub fn belongs_to(name: &str, path_hash: u64) -> (r: bool)
        ensures
            r == belongs_to_spec(name@, path_hash),
    {
        let n = chars_of(name);
        let mut prefix = chars_of(u64_to_hex(path_hash).as_str());
        prefix.push('_');
        assert(prefix@ =~= hex_spec(path_hash as nat) + seq!['_']);
        match find_first(&n, &prefix, 0) {
            Some(i) => {
                proof {
                    lemma_first_at(n@, prefix@, 0);
                }
                i == 0
            },
            None => {
                proof {
                    lemma_first_at(n@, prefix@, 0);
                }
                false
            },
        }
    }

    /// The header of a cache file for an image of `width` by `height`.
    pub fn encode_header(width: u32, height: u32) -> (r: [u8; 8])
        ensures
            r@ == header_spec(width, height),
    {
        let r = [
            (width % 256) as u8,
            ((width / 256) % 256) as u8,
            ((width / 65536) % 256) as u8,
            (width / 16777216) as u8,
            (height % 256) as u8,
            ((height / 256) % 256) as u8,
            ((height / 65536) % 256) as u8,
            (height / 16777216) as u8,
        ];
        assert(r@ =~= header_spec(width, height));
        r
    }

    /// The width and height a cache file header records.
    pub fn decode_header(header: &[u8; 8]) -> (r: (u32, u32))
        ensures
            r.0 == le_u32(header@[0], header@[1], header@[2], header@[3]),
            r.1 == le_u32(header@[4], header@[5], header@[6], header@[7]),
    {
        let w = header[0] as u32 + 256 * (header[1] as u32) + 65536 * (header[2] as u32) + 16777216 * (header[3] as u32);
        let h = header[4] as u32 + 256 * (header[5] as u32) + 65536 * (header[6] as u32) + 16777216 * (header[7] as u32);
        (w, h)
    }

    /// The number of RGBA bytes that follow the header, where it fits a
    /// `u32`.
    pub fn frame_len(width: u32, height: u32) -> (r: Option<usize>)
        ensures
            match r {
                Some(n) => n == frame_len_spec(width, height) && frame_len_spec(width, height) <= u32::MAX,
                None => frame_len_spec(width, height) > u32::MAX,
            },
    {
        match width.checked_mul(height) {
            Some(a) => match a.checked_mul(4) {
                Some(b) => Some(b as usize),
                None => None,
            },
            None => {
                assert(width as int * height as int * 4 > u32::MAX) by (nonlinear_arith)
                    requires
                        width as int * height as int > u32::MAX,
                ;
                None
            },
        }
    }
}

proof fn lemma_split_at_first(a: Seq<char>, b: Seq<char>)
    requires
        forall|i: int| 0 <= i < a.len() ==> a[i] != '_',
    ensures
        split_spec(a + seq!['_'] + b, seq!['_']) == seq![a] + split_spec(b, seq!['_']),
{
    let x = a + seq!['_'] + b;
    let pat = seq!['_'];
    assert(x.subrange(a.len() as int, a.len() as int + 1) =~= pat);
    assert forall|j: int| 0 <= j < a.len() implies !occurs_at(x, pat, j) by {
        assert(x.subrange(j, j + 1)[0] == a[j]);
    }
    lemma_first_at_from_search(x, pat, 0, Some(a.len() as int));
    assert(x.take(a.len() as int) =~= a);
    assert(x.skip(a.len() as int + 1) =~= b);
}

proof fn lemma_split_nonempty(s: Seq<char>)
    ensures
        split_spec(s, seq!['_']).len() >= 1,
{
    reveal_with_fuel(split_spec, 1);
}

/// The parts of a cache file name: the hash, the page, and what follows.
proof fn lemma_entry_parts(path_hash: u64, page_index: usize, zoom_key: u32, suffix: Seq<char>)
    ensures
        ({
            let parts = split_spec(entry_name_spec(path_hash, page_index, zoom_key, suffix), seq!['_']);
            &&& parts.len() >= 3
            &&& parts[0] == hex_spec(path_hash as nat)
            &&& parts[1] == decimal(page_index as nat)
        }),
{
    let hx = hex_spec(path_hash as nat);
    let dp = decimal(page_index as nat);
    let dz = decimal(zoom_key as nat);
    lemma_hex_parses(path_hash as nat);
    lemma_decimal_parses(page_index as nat);
    lemma_decimal_parses(zoom_key as nat);
    let tail = dz + seq!['_'] + suffix + ".raw"@;
    let rest = dp + seq!['_'] + tail;
    assert(entry_name_spec(path_hash, page_index, zoom_key, suffix) =~= hx + seq!['_'] + rest);
    assert forall|i: int| 0 <= i < hx.len() implies hx[i] != '_' by {
        assert(is_hex_digit(hx[i]));
    }
    assert forall|i: int| 0 <= i < dp.len() implies dp[i] != '_' by {
        assert(is_digit(dp[i]));
    }
    lemma_split_at_first(hx, rest);
    lemma_split_at_first(dp, tail);
    lemma_split_nonempty(tail);
}

proof fn lemma_hex_spec_reads_back(n: u64)
    ensures
        parse_hex_u64_spec(hex_spec(n as nat)) == Some(n as nat),
{
    lemma_hex_parses(n as nat);
    let hx = hex_spec(n as nat);
    assert(is_hex_digit(hx[0]));
    assert(unsigned_body(hx) == hx);
}

proof fn lemma_decimal_reads_back(n: usize)
    ensures
        parse_usize_spec(decimal(n as nat)) == Some(n as nat),
{
    lemma_decimal_parses(n as nat);
    let d = decimal(n as nat);
    assert(is_digit(d[0]));
    assert(unsigned_body(d) == d);
}

/// A page render's cache file survives retention exactly when its document
/// has a kept window that holds the page.
pub proof fn lemma_entry_kept_iff_in_window(
    path_hash: u64,
    page_index: usize,
    zoom_key: u32,
    suffix: Seq<char>,
    allowed: Map<u64, (usize, usize)>,
)
    ensures
        keeps_entry_spec(entry_name_spec(path_hash, page_index, zoom_key, suffix), allowed) <==> (
        allowed.contains_key(path_hash) && allowed[path_hash].0 <= page_index <= allowed[path_hash].1),
{
    lemma_entry_parts(path_hash, page_index, zoom_key, suffix);
    lemma_hex_spec_reads_back(path_hash);
    lemma_decimal_reads_back(page_index);
}

/// The files of an open tab's current page survive retention: every tab's
/// window holds the page it shows, whatever tab came before it on the same
/// document, as long as no later tab shows that document.
pub proof fn lemma_current_page_kept(
    tabs: Seq<(u64, usize)>,
    zoom_key: u32,
    suffix: Seq<char>,
)
    requires
        tabs.len() > 0,
        tabs.last().1 + 3 <= usize::MAX,
    ensures
        keeps_entry_spec(
            entry_name_spec(tabs.last().0, tabs.last().1, zoom_key, suffix),
            allowed_windows_spec(tabs),
        ),
{
    lemma_entry_kept_iff_in_window(tabs.last().0, tabs.last().1, zoom_key, suffix, allowed_windows_spec(tabs));
}

/// Removing a document's cache files removes those of that document and
/// no other: a cache file name belongs to a hash exactly when it was built
/// from that hash.
pub proof fn lemma_entry_belongs_iff_same_hash(
    path_hash: u64,
    other: u64,
    page_index: usize,
    zoom_key: u32,
    suffix: Seq<char>,
)
    ensures
        belongs_to_spec(entry_name_spec(other, page_index, zoom_key, suffix), path_hash) <==> path_hash == other,
{
    let name = entry_name_spec(other, page_index, zoom_key, suffix);
    let ha = hex_spec(path_hash as nat);
    let hb = hex_spec(other as nat);
    lemma_hex_parses(path_hash as nat);
    lemma_hex_parses(other as nat);
    let rest = decimal(page_index as nat) + seq!['_'] + decimal(zoom_key as nat) + seq!['_'] + suffix + ".raw"@;
    assert(name =~= hb + seq!['_'] + rest);
    if path_hash == other {
        assert(name.subrange(0, ha.len() as int + 1) =~= ha + seq!['_']);
    }
    if belongs_to_spec(name, path_hash) {
        let pre = ha + seq!['_'];
        assert(name.subrange(0, pre.len() as int) == pre);
        if ha.len() < hb.len() {
            assert(name[ha.len() as int] == pre[ha.len() as int]);
            assert(name[ha.len() as int] == hb[ha.len() as int]);
            assert(is_hex_digit(hb[ha.len() as int]));
        } else if ha.len() > hb.len() {
            assert(name[hb.len() as int] == pre[hb.len() as int]);
            assert(name[hb.len() as int] == '_');
            assert(is_hex_digit(ha[hb.len() as int]));
        } else {
            assert forall|i: int| 0 <= i < ha.len() implies ha[i] == hb[i] by {
                assert(name[i] == pre[i]);
                assert(name[i] == hb[i]);
            }
            assert(ha =~= hb);
        }
    }
}

/// A cache file header reads back as the width and height it was written
/// with.
pub proof fn lemma_header_round_trip(width: u32, height: u32)
    ensures
        ({
            let h = header_spec(width, height);
            &&& h.len() == 8
            &&& le_u32(h[0], h[1], h[2], h[3]) == width
            &&& le_u32(h[4], h[5], h[6], h[7]) == height
        }),
{
    assert(width == (width % 256) + 256 * ((width / 256) % 256) + 65536 * ((width / 65536) % 256) + 16777216 * (width / 16777216)) by (nonlinear_arith);
    assert(height == (height % 256) + 256 * ((height / 256) % 256) + 65536 * ((height / 65536) % 256) + 16777216 * (height / 16777216)) by (nonlinear_arith);
}

/// A tab keeps the page it shows.
pub proof fn lemma_window_holds_page(current_page: usize)
    requires
        current_page + 3 <= usize::MAX,
    ensures
        retention_window_spec(current_page).0 <= current_page <= retention_window_spec(current_page).1,
{
}

/// The total of a list of file sizes.
pub open spec fn sizes_total(sizes: Seq<u64>) -> nat
    decreases sizes.len(),
{
    if sizes.len() == 0 {
        0
    } else {
        sizes_total(sizes.drop_last()) + sizes.last() as nat
    }
}

/// A purge of the disk cache in progress: the bytes the cache is taken to
/// hold. The caller walks the files oldest first, removing one while
/// `needs_removal` holds and reporting each removal that succeeded.
pub struct DiskPurge {
    current_size: u64,
}

impl DiskPurge {
    pub closed spec fn size(&self) -> u64 {
        self.current_size
    }

    /// Starts a purge of files of the given sizes.
    pub fn start(sizes: &Vec<u64>) -> (r: DiskPurge)
        requires
            sizes_total(sizes@) <= u64::MAX,
        ensures
            r.size() == sizes_total(sizes@),
    {
        let mut total: u64 = 0;
        let mut i: usize = 0;
        assert(sizes@.take(0) =~= Seq::<u64>::empty());
        while i < sizes.len()
            invariant
                i <= sizes@.len(),
                sizes_total(sizes@) <= u64::MAX,
                total == sizes_total(sizes@.take(i as int)),
            decreases sizes@.len() - i,
        {
            proof {
                assert(sizes@.take(i + 1).drop_last() =~= sizes@.take(i as int));
                assert(sizes@.take(i + 1).last() == sizes@[i as int]);
                lemma_sizes_total_prefix(sizes@, i + 1);
            }
            total = total + sizes[i];
            i = i + 1;
        }
        assert(sizes@.take(i as int) =~= sizes@);
        DiskPurge { current_size: total }
    }

    /// Whether the cache is still over its budget, so the next oldest file
    /// is to be removed.
    pub fn needs_removal(&self) -> (r: bool)
        ensures
            r == (self.size() > MAX_DISK_BYTES),
    {
        self.current_size > MAX_DISK_BYTES
    }

    /// Records that a file of `size` bytes was removed.
    pub fn record_removed(&mut self, size: u64)
        ensures
            final(self).size() == (if old(self).size() >= size { (old(self).size() - size) as u64 } else { 0 }),
    {
        self.current_size = self.current_size.saturating_sub(size);
    }
}

proof fn lemma_sizes_total_prefix(sizes: Seq<u64>, k: int)
    requires
        0 <= k <= sizes.len(),
    ensures
        sizes_total(sizes.take(k)) <= sizes_total(sizes),
    decreases sizes.len() - k,
{
    if k < sizes.len() {
        lemma_sizes_total_prefix(sizes, k + 1);
        assert(sizes.take(k + 1).drop_last() =~= sizes.take(k));
    } else {
        assert(sizes.take(k) =~= sizes);
    }
}

} // verus!
