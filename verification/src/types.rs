//! How keys and values are stored: booleans as one byte, integers as their
//! bytes in the machine's byte order, binary and text values as their bytes.
use vstd::prelude::*;
use vstd::arithmetic::div_mod::{
    lemma_div_denominator, lemma_fundamental_div_mod_converse, lemma_mod_breakdown,
};
use vstd::string::*;
use vstd::utf8::{decode_utf8, encode_utf8, encode_utf8_decode_utf8, encode_utf8_valid_utf8, valid_utf8};
use crate::err::{Error, MDBX_NOTFOUND, MDBX_SUCCESS};
use crate::val::cow_val;
use std::borrow::Cow;
use crate::text::{decimal, decimal_string, join_spec, join_with, views};

verus! {

/// The order in which the bytes of a stored integer stand.
#[derive(Clone, Copy, Debug, PartialEq, Eq, Structural)]
pub enum ByteOrder {
    Little,
    Big,
}

/// 256 to the power `n`: one more than the largest `n`-byte unsigned number.
pub open spec fn pow256(n: nat) -> nat
    decreases n,
{
    if n == 0 {
        1
    } else {
        256 * pow256((n - 1) as nat)
    }
}

/// The `n` bytes of `x`, least significant first (`x` taken modulo `256^n`).
pub open spec fn le_bytes(x: nat, n: nat) -> Seq<u8>
    decreases n,
{
    if n == 0 {
        Seq::empty()
    } else {
        seq![(x % 256) as u8] + le_bytes(x / 256, (n - 1) as nat)
    }
}

/// The number whose bytes, least significant first, are `b`.
pub open spec fn le_value(b: Seq<u8>) -> nat
    decreases b.len(),
{
    if b.len() == 0 {
        0
    } else {
        b[0] as nat + 256 * le_value(b.drop_first())
    }
}

/// The `n` bytes of `x` in byte order `o`.
pub open spec fn bytes_of(x: nat, n: nat, o: ByteOrder) -> Seq<u8> {
    match o {
        ByteOrder::Little => le_bytes(x, n),
        ByteOrder::Big => le_bytes(x, n).reverse(),
    }
}

/// The unsigned number whose bytes in byte order `o` are `b`.
pub open spec fn value_of(b: Seq<u8>, o: ByteOrder) -> nat {
    match o {
        ByteOrder::Little => le_value(b),
        ByteOrder::Big => le_value(b.reverse()),
    }
}

/// The `n`-byte two's complement pattern of `x`, as an unsigned number.
pub open spec fn twos(x: int, n: nat) -> nat {
    if x >= 0 {
        x as nat
    } else {
        (x + pow256(n)) as nat
    }
}

/// The signed number whose `n`-byte two's complement pattern is `u`.
pub open spec fn from_twos(u: nat, n: nat) -> int {
    if u < pow256(n) / 2 {
        u as int
    } else {
        u - pow256(n)
    }
}

pub proof fn lemma_pow256_positive(n: nat)
    ensures
        pow256(n) > 0,
    decreases n,
{
    if n > 0 {
        lemma_pow256_positive((n - 1) as nat);
    }
}

pub proof fn lemma_pow256_monotonic(m: nat, n: nat)
    requires
        m <= n,
    ensures
        pow256(m) <= pow256(n),
    decreases n,
{
    if m < n {
        lemma_pow256_monotonic(m, (n - 1) as nat);
        lemma_pow256_positive((n - 1) as nat);
    }
}

/// The sizes of the integer types in bytes, and what 256 to those powers is.
pub proof fn lemma_pow256_values()
    ensures
        pow256(1) == 0x100,
        pow256(2) == 0x1_0000,
        pow256(4) == 0x1_0000_0000,
        pow256(8) == 0x1_0000_0000_0000_0000,
        pow256(16) == 0x1_0000_0000_0000_0000_0000_0000_0000_0000,
{
    reveal_with_fuel(pow256, 17);
}

pub proof fn lemma_le_bytes_len(x: nat, n: nat)
    ensures
        le_bytes(x, n).len() == n,
    decreases n,
{
    if n > 0 {
        lemma_le_bytes_len(x / 256, (n - 1) as nat);
    }
}

pub proof fn lemma_le_value_bound(b: Seq<u8>)
    ensures
        le_value(b) < pow256(b.len()),
    decreases b.len(),
{
    if b.len() > 0 {
        lemma_le_value_bound(b.drop_first());
    }
}

/// Reading back the `n` bytes of `x` gives `x` modulo `256^n`.
pub proof fn lemma_le_roundtrip(x: nat, n: nat)
    ensures
        le_value(le_bytes(x, n)) == x % pow256(n),
    decreases n,
{
    if n > 0 {
        let m = (n - 1) as nat;
        let b = le_bytes(x, n);
        lemma_le_roundtrip(x / 256, m);
        assert(b.drop_first() =~= le_bytes(x / 256, m));
        lemma_pow256_positive(m);
        lemma_mod_breakdown(x as int, 256, pow256(m) as int);
    }
}

/// The bytes of the number that `b` spells are `b` again.
pub proof fn lemma_le_bytes_of_value(b: Seq<u8>)
    ensures
        le_bytes(le_value(b), b.len()) == b,
    decreases b.len(),
{
    if b.len() > 0 {
        let t = b.drop_first();
        lemma_le_bytes_of_value(t);
        let v = le_value(b);
        lemma_fundamental_div_mod_converse(v as int, 256, le_value(t) as int, b[0] as int);
        assert(le_bytes(v, b.len()) =~= b);
    } else {
        assert(le_bytes(le_value(b), 0) =~= b);
    }
}

/// Law: the stored bytes of an unsigned number, byte by byte: in little-endian
/// order byte `i` is `x / 256^i` modulo 256, in big-endian order byte `i` is
/// byte `n - 1 - i` of the little-endian form; there are `n` bytes.
pub proof fn law_byte_positions(x: nat, n: nat, i: int)
    requires
        0 <= i < n,
    ensures
        bytes_of(x, n, ByteOrder::Little).len() == n,
        bytes_of(x, n, ByteOrder::Big).len() == n,
        bytes_of(x, n, ByteOrder::Little)[i] == ((x / pow256(i as nat)) % 256) as u8,
        bytes_of(x, n, ByteOrder::Big)[i] == ((x / pow256((n - 1 - i) as nat)) % 256) as u8,
{
    lemma_le_bytes_len(x, n);
    lemma_byte_at(x, n, i);
    lemma_byte_at(x, n, n - 1 - i);
}

proof fn lemma_byte_at(x: nat, n: nat, i: int)
    requires
        0 <= i < n,
    ensures
        le_bytes(x, n)[i] == ((x / pow256(i as nat)) % 256) as u8,
    decreases n,
{
    let m = (n - 1) as nat;
    if i == 0 {
        assert(pow256(0) == 1);
        assert(x / 1 == x);
    } else {
        lemma_le_bytes_len(x / 256, m);
        lemma_byte_at(x / 256, m, i - 1);
        assert(le_bytes(x, n)[i] == le_bytes(x / 256, m)[i - 1]);
        lemma_pow256_positive((i - 1) as nat);
        lemma_div_denominator(x as int, 256, pow256((i - 1) as nat) as int);
        assert(pow256(i as nat) == 256 * pow256((i - 1) as nat));
    }
}

/// Law: an unsigned number stored in `n` bytes, in either byte order, reads
/// back as itself, and the stored form has `n` bytes.
pub proof fn law_unsigned_roundtrip(x: nat, n: nat, o: ByteOrder)
    requires
        x < pow256(n),
    ensures
        bytes_of(x, n, o).len() == n,
        value_of(bytes_of(x, n, o), o) == x,
{
    lemma_le_bytes_len(x, n);
    lemma_le_roundtrip(x, n);
    assert(x % pow256(n) == x) by {
        lemma_fundamental_div_mod_converse(x as int, pow256(n) as int, 0, x as int);
    }
    if o == ByteOrder::Big {
        assert(le_bytes(x, n).reverse().reverse() =~= le_bytes(x, n));
    }
}

/// Law: any `n` bytes read as an unsigned number and stored again, in the
/// same byte order, give the same bytes.
pub proof fn law_bytes_roundtrip(b: Seq<u8>, o: ByteOrder)
    ensures
        value_of(b, o) < pow256(b.len()),
        bytes_of(value_of(b, o), b.len(), o) == b,
{
    match o {
        ByteOrder::Little => {
            lemma_le_value_bound(b);
            lemma_le_bytes_of_value(b);
        },
        ByteOrder::Big => {
            let r = b.reverse();
            lemma_le_value_bound(r);
            lemma_le_bytes_of_value(r);
            assert(r.reverse() =~= b);
        },
    }
}

/// Law: a signed number that fits in `n` bytes survives the trip through its
/// two's complement pattern, and the pattern fits in `n` bytes.
pub proof fn law_signed_roundtrip(x: int, n: nat)
    requires
        n >= 1,
        -(pow256(n) / 2) <= x < pow256(n) / 2,
    ensures
        twos(x, n) < pow256(n),
        from_twos(twos(x, n), n) == x,
{
    lemma_pow256_positive((n - 1) as nat);
}

/// Law: a two's complement pattern read as a signed number gives a number
/// that fits in `n` bytes and whose pattern is the same.
pub proof fn law_twos_roundtrip(u: nat, n: nat)
    requires
        n >= 1,
        u < pow256(n),
    ensures
        -(pow256(n) / 2) <= from_twos(u, n) < pow256(n) / 2,
        twos(from_twos(u, n), n) == u,
{
    lemma_pow256_positive((n - 1) as nat);
}

/// The `n` bytes of `x`, least significant first.
fn le_encode(x: u128, n: usize) -> (r: Vec<u8>)
    ensures
        r@ == le_bytes(x as nat, n as nat),
{
    let mut out: Vec<u8> = Vec::new();
    let mut y: u128 = x;
    let mut i: usize = 0;
    assert(out@ + le_bytes(y as nat, (n - i) as nat) =~= le_bytes(x as nat, n as nat));
    while i < n
        invariant
            i <= n,
            out@ + le_bytes(y as nat, (n - i) as nat) == le_bytes(x as nat, n as nat),
        decreases n - i,
    {
        let ghost rest = le_bytes(y as nat, (n - i) as nat);
        assert(rest == seq![(y % 256) as u8] + le_bytes((y / 256) as nat, (n - i - 1) as nat));
        out.push((y % 256) as u8);
        y = y / 256;
        i = i + 1;
        assert(out@ + le_bytes(y as nat, (n - i) as nat) =~= le_bytes(x as nat, n as nat));
    }
    assert(out@ =~= le_bytes(x as nat, n as nat));
    out
}

/// The number whose bytes, least significant first, are `b`.
fn le_decode(b: &[u8]) -> (r: u128)
    requires
        b@.len() <= 16,
    ensures
        r == le_value(b@),
{
    let n = b.len();
    let mut acc: u128 = 0;
    let mut i: usize = n;
    proof {
        lemma_pow256_values();
    }
    assert(b@.skip(n as int) =~= Seq::<u8>::empty());
    while i > 0
        invariant
            i <= n,
            n == b@.len(),
            n <= 16,
            acc == le_value(b@.skip(i as int)),
            acc < pow256((n - i) as nat),
            pow256(16) == 0x1_0000_0000_0000_0000_0000_0000_0000_0000,
        decreases i,
    {
        let ghost k = (n - i) as nat;
        proof {
            lemma_pow256_monotonic(k + 1, 16);
        }
        let byte = b[i - 1];
        assert(b@.skip(i - 1).drop_first() =~= b@.skip(i as int));
        assert(b@.skip(i - 1)[0] == byte);
        acc = acc * 256 + byte as u128;
        i = i - 1;
    }
    assert(b@.skip(0) =~= b@);
    acc
}

/// The bytes in reverse order.
fn reversed(v: &Vec<u8>) -> (r: Vec<u8>)
    ensures
        r@ == v@.reverse(),
{
    let mut out: Vec<u8> = Vec::new();
    let mut i: usize = v.len();
    while i > 0
        invariant
            i <= v@.len(),
            out@ == v@.subrange(i as int, v@.len() as int).reverse(),
        decreases i,
    {
        out.push(v[i - 1]);
        i = i - 1;
        assert(out@ =~= v@.subrange(i as int, v@.len() as int).reverse());
    }
    assert(v@.subrange(0, v@.len() as int) =~= v@);
    out
}

/// The `n` bytes of `x` in byte order `o`.
pub fn write_uint(x: u128, n: usize, o: ByteOrder) -> (r: Vec<u8>)
    ensures
        r@ == bytes_of(x as nat, n as nat, o),
{
    let le = le_encode(x, n);
    match o {
        ByteOrder::Little => le,
        ByteOrder::Big => reversed(&le),
    }
}

/// The unsigned number whose bytes in byte order `o` are `b`.
pub fn read_uint(b: &[u8], o: ByteOrder) -> (r: u128)
    requires
        b@.len() <= 16,
    ensures
        r == value_of(b@, o),
        r < pow256(b@.len()),
{
    proof {
        law_bytes_roundtrip(b@, o);
    }
    match o {
        ByteOrder::Little => le_decode(b),
        ByteOrder::Big => {
            let mut v: Vec<u8> = Vec::new();
            let mut i: usize = 0;
            while i < b.len()
                invariant
                    i <= b@.len(),
                    v@ == b@.take(i as int),
                decreases b@.len() - i,
            {
                v.push(b[i]);
                i = i + 1;
                assert(v@ =~= b@.take(i as int));
            }
            assert(b@.take(b@.len() as int) =~= b@);
            let r = reversed(&v);
            le_decode(r.as_slice())
        },
    }
}

/// 256 to the power `n`, for `n` up to 15.
fn pow256_exec(n: usize) -> (r: u128)
    requires
        n <= 15,
    ensures
        r == pow256(n as nat),
{
    proof {
        lemma_pow256_values();
        lemma_pow256_monotonic(n as nat, 16);
    }
    let mut r: u128 = 1;
    let mut i: usize = 0;
    while i < n
        invariant
            i <= n <= 15,
            r == pow256(i as nat),
            pow256(16) == 0x1_0000_0000_0000_0000_0000_0000_0000_0000,
        decreases n - i,
    {
        proof {
            lemma_pow256_monotonic((i + 1) as nat, 15);
            assert(pow256(16) == 256 * pow256(15));
            assert(pow256((i + 1) as nat) == 256 * pow256(i as nat));
        }
        r = r * 256;
        i = i + 1;
    }
    r
}

/// The `n`-byte two's complement pattern of `x`.
pub fn to_twos(x: i128, n: usize) -> (r: u128)
    requires
        1 <= n <= 16,
        -(pow256(n as nat) / 2) <= x < pow256(n as nat) / 2,
    ensures
        r == twos(x as int, n as nat),
{
    proof {
        lemma_pow256_values();
    }
    if x >= 0 {
        x as u128
    } else if n < 16 {
        let p = pow256_exec(n);
        proof {
            lemma_pow256_monotonic(n as nat, 15);
        }
        (x + p as i128) as u128
    } else {
        let y = (x + i128::MAX + 1) as u128;
        y + 0x8000_0000_0000_0000_0000_0000_0000_0000u128
    }
}

/// The signed number whose `n`-byte two's complement pattern is `u`.
pub fn from_twos_exec(u: u128, n: usize) -> (r: i128)
    requires
        1 <= n <= 16,
        u < pow256(n as nat),
    ensures
        r == from_twos(u as nat, n as nat),
{
    proof {
        lemma_pow256_values();
    }
    if n < 16 {
        let p = pow256_exec(n);
        proof {
            lemma_pow256_monotonic(n as nat, 15);
        }
        if u < p / 2 {
            u as i128
        } else {
            (u as i128) - (p as i128)
        }
    } else if u < 0x8000_0000_0000_0000_0000_0000_0000_0000u128 {
        u as i128
    } else {
        let y = (u - 0x8000_0000_0000_0000_0000_0000_0000_0000u128) as i128;
        y - i128::MAX - 1
    }
}

/// A type whose values can be read from stored bytes that live for `'a`.
pub trait FromMdbx<'a>: Sized {
    /// Whether stored bytes can be read as a value of this type.
    spec fn decodable(bytes: Seq<u8>) -> bool;

    /// Whether `r` is what the stored bytes read as, given the code that
    /// libmdbx's dirty-page test gave for them and the byte order `order`.
    spec fn decodes(bytes: Seq<u8>, dirty_code: i32, order: ByteOrder, r: Self) -> bool;

    /// Whether stored bytes can be read as a value of this type.
    fn accepts(val: &[u8]) -> (r: bool)
        ensures
            r == Self::decodable(val@),
    ;

    /// Reads a value from its stored bytes.
    fn from_mdbx(val: &'a [u8], dirty_code: i32, order: ByteOrder) -> (r: Self)
        requires
            Self::decodable(val@),
        ensures
            Self::decodes(val@, dirty_code, order, r),
    ;
}

/// A type whose values can be stored as keys or values of `K`.
pub trait ToAsRef<K> {
    /// The stored bytes of the value, integers in byte order `order`.
    spec fn encoded(&self, order: ByteOrder) -> Seq<u8>;

    /// The bytes to store.
    fn to_as_ref(&self, order: ByteOrder) -> (r: Vec<u8>)
        ensures
            r@ == self.encoded(order),
    ;
}

impl<'a> FromMdbx<'a> for bool {
    open spec fn decodable(bytes: Seq<u8>) -> bool {
        bytes.len() >= 1
    }

    fn accepts(val: &[u8]) -> (r: bool) {
        val.len() >= 1
    }

    open spec fn decodes(bytes: Seq<u8>, dirty_code: i32, order: ByteOrder, r: bool) -> bool {
        r == (bytes[0] != 0)
    }

    fn from_mdbx(val: &'a [u8], dirty_code: i32, order: ByteOrder) -> (r: bool) {
        val[0] != 0
    }
}

impl ToAsRef<bool> for bool {
    open spec fn encoded(&self, order: ByteOrder) -> Seq<u8> {
        seq![if *self { 1u8 } else { 0u8 }]
    }

    fn to_as_ref(&self, order: ByteOrder) -> (r: Vec<u8>) {
        let b: u8 = if *self { 1 } else { 0 };
        let r = vec![b];
        assert(r@ =~= seq![b]);
        r
    }
}

/// The size of `usize` in bytes.
pub open spec fn usize_size() -> nat {
    if usize::BITS == 32 { 4 } else { 8 }
}

fn usize_bytes() -> (r: usize)
    ensures
        r == usize_size(),
        r == 4 || r == 8,
        pow256(r as nat) == usize::MAX + 1,
{
    proof {
        lemma_pow256_values();
    }
    if usize::BITS == 32 { 4 } else { 8 }
}

impl<'a> FromMdbx<'a> for u8 {
    open spec fn decodable(bytes: Seq<u8>) -> bool {
        bytes.len() == 1
    }

    fn accepts(val: &[u8]) -> (r: bool) {
        val.len() == 1
    }

    open spec fn decodes(bytes: Seq<u8>, dirty_code: i32, order: ByteOrder, r: u8) -> bool {
        r as nat == value_of(bytes, order)
    }

    fn from_mdbx(val: &'a [u8], dirty_code: i32, order: ByteOrder) -> (r: u8) {
        proof {
            lemma_pow256_values();
        }
        read_uint(val, order) as u8
    }
}

impl ToAsRef<u8> for u8 {
    open spec fn encoded(&self, order: ByteOrder) -> Seq<u8> {
        bytes_of(*self as nat, 1, order)
    }

    fn to_as_ref(&self, order: ByteOrder) -> (r: Vec<u8>) {
        write_uint(*self as u128, 1, order)
    }
}

impl<'a> FromMdbx<'a> for u16 {
    open spec fn decodable(bytes: Seq<u8>) -> bool {
        bytes.len() == 2
    }

    fn accepts(val: &[u8]) -> (r: bool) {
        val.len() == 2
    }

    open spec fn decodes(bytes: Seq<u8>, dirty_code: i32, order: ByteOrder, r: u16) -> bool {
        r as nat == value_of(bytes, order)
    }

    fn from_mdbx(val: &'a [u8], dirty_code: i32, order: ByteOrder) -> (r: u16) {
        proof {
            lemma_pow256_values();
        }
        read_uint(val, order) as u16
    }
}

impl ToAsRef<u16> for u16 {
    open spec fn encoded(&self, order: ByteOrder) -> Seq<u8> {
        bytes_of(*self as nat, 2, order)
    }

    fn to_as_ref(&self, order: ByteOrder) -> (r: Vec<u8>) {
        write_uint(*self as u128, 2, order)
    }
}

impl<'a> FromMdbx<'a> for u32 {
    open spec fn decodable(bytes: Seq<u8>) -> bool {
        bytes.len() == 4
    }

    fn accepts(val: &[u8]) -> (r: bool) {
        val.len() == 4
    }

    open spec fn decodes(bytes: Seq<u8>, dirty_code: i32, order: ByteOrder, r: u32) -> bool {
        r as nat == value_of(bytes, order)
    }

    fn from_mdbx(val: &'a [u8], dirty_code: i32, order: ByteOrder) -> (r: u32) {
        proof {
            lemma_pow256_values();
        }
        read_uint(val, order) as u32
    }
}

impl ToAsRef<u32> for u32 {
    open spec fn encoded(&self, order: ByteOrder) -> Seq<u8> {
        bytes_of(*self as nat, 4, order)
    }

    fn to_as_ref(&self, order: ByteOrder) -> (r: Vec<u8>) {
        write_uint(*self as u128, 4, order)
    }
}

impl<'a> FromMdbx<'a> for u64 {
    open spec fn decodable(bytes: Seq<u8>) -> bool {
        bytes.len() == 8
    }

    fn accepts(val: &[u8]) -> (r: bool) {
        val.len() == 8
    }

    open spec fn decodes(bytes: Seq<u8>, dirty_code: i32, order: ByteOrder, r: u64) -> bool {
        r as nat == value_of(bytes, order)
    }

    fn from_mdbx(val: &'a [u8], dirty_code: i32, order: ByteOrder) -> (r: u64) {
        proof {
            lemma_pow256_values();
        }
        read_uint(val, order) as u64
    }
}

impl ToAsRef<u64> for u64 {
    open spec fn encoded(&self, order: ByteOrder) -> Seq<u8> {
        bytes_of(*self as nat, 8, order)
    }

    fn to_as_ref(&self, order: ByteOrder) -> (r: Vec<u8>) {
        write_uint(*self as u128, 8, order)
    }
}

impl<'a> FromMdbx<'a> for u128 {
    open spec fn decodable(bytes: Seq<u8>) -> bool {
        bytes.len() == 16
    }

    fn accepts(val: &[u8]) -> (r: bool) {
        val.len() == 16
    }

    open spec fn decodes(bytes: Seq<u8>, dirty_code: i32, order: ByteOrder, r: u128) -> bool {
        r as nat == value_of(bytes, order)
    }

    fn from_mdbx(val: &'a [u8], dirty_code: i32, order: ByteOrder) -> (r: u128) {
        proof {
            lemma_pow256_values();
        }
        read_uint(val, order) as u128
    }
}

impl ToAsRef<u128> for u128 {
    open spec fn encoded(&self, order: ByteOrder) -> Seq<u8> {
        bytes_of(*self as nat, 16, order)
    }

    fn to_as_ref(&self, order: ByteOrder) -> (r: Vec<u8>) {
        write_uint(*self as u128, 16, order)
    }
}

impl<'a> FromMdbx<'a> for usize {
    open spec fn decodable(bytes: Seq<u8>) -> bool {
        bytes.len() == usize_size()
    }

    fn accepts(val: &[u8]) -> (r: bool) {
        val.len() == usize_bytes()
    }

    open spec fn decodes(bytes: Seq<u8>, dirty_code: i32, order: ByteOrder, r: usize) -> bool {
        r as nat == value_of(bytes, order)
    }

    fn from_mdbx(val: &'a [u8], dirty_code: i32, order: ByteOrder) -> (r: usize) {
        let n = usize_bytes();
        read_uint(val, order) as usize
    }
}

impl ToAsRef<usize> for usize {
    open spec fn encoded(&self, order: ByteOrder) -> Seq<u8> {
        bytes_of(*self as nat, usize_size(), order)
    }

    fn to_as_ref(&self, order: ByteOrder) -> (r: Vec<u8>) {
        let n = usize_bytes();
        write_uint(*self as u128, n, order)
    }
}

impl<'a> FromMdbx<'a> for i8 {
    open spec fn decodable(bytes: Seq<u8>) -> bool {
        bytes.len() == 1
    }

    fn accepts(val: &[u8]) -> (r: bool) {
        val.len() == 1
    }

    open spec fn decodes(bytes: Seq<u8>, dirty_code: i32, order: ByteOrder, r: i8) -> bool {
        r as int == from_twos(value_of(bytes, order), 1)
    }

    fn from_mdbx(val: &'a [u8], dirty_code: i32, order: ByteOrder) -> (r: i8) {
        proof {
            lemma_pow256_values();
        }
        let u = read_uint(val, order);
        proof {
            law_twos_roundtrip(u as nat, 1);
        }
        from_twos_exec(u, 1) as i8
    }
}

impl ToAsRef<i8> for i8 {
    open spec fn encoded(&self, order: ByteOrder) -> Seq<u8> {
        bytes_of(twos(*self as int, 1), 1, order)
    }

    fn to_as_ref(&self, order: ByteOrder) -> (r: Vec<u8>) {
        proof {
            lemma_pow256_values();
        }
        write_uint(to_twos(*self as i128, 1), 1, order)
    }
}

impl<'a> FromMdbx<'a> for i16 {
    open spec fn decodable(bytes: Seq<u8>) -> bool {
        bytes.len() == 2
    }

    fn accepts(val: &[u8]) -> (r: bool) {
        val.len() == 2
    }

    open spec fn decodes(bytes: Seq<u8>, dirty_code: i32, order: ByteOrder, r: i16) -> bool {
        r as int == from_twos(value_of(bytes, order), 2)
    }

    fn from_mdbx(val: &'a [u8], dirty_code: i32, order: ByteOrder) -> (r: i16) {
        proof {
            lemma_pow256_values();
        }
        let u = read_uint(val, order);
        proof {
            law_twos_roundtrip(u as nat, 2);
        }
        from_twos_exec(u, 2) as i16
    }
}

impl ToAsRef<i16> for i16 {
    open spec fn encoded(&self, order: ByteOrder) -> Seq<u8> {
        bytes_of(twos(*self as int, 2), 2, order)
    }

    fn to_as_ref(&self, order: ByteOrder) -> (r: Vec<u8>) {
        proof {
            lemma_pow256_values();
        }
        write_uint(to_twos(*self as i128, 2), 2, order)
    }
}

impl<'a> FromMdbx<'a> for i32 {
    open spec fn decodable(bytes: Seq<u8>) -> bool {
        bytes.len() == 4
    }

    fn accepts(val: &[u8]) -> (r: bool) {
        val.len() == 4
    }

    open spec fn decodes(bytes: Seq<u8>, dirty_code: i32, order: ByteOrder, r: i32) -> bool {
        r as int == from_twos(value_of(bytes, order), 4)
    }

    fn from_mdbx(val: &'a [u8], dirty_code: i32, order: ByteOrder) -> (r: i32) {
        proof {
            lemma_pow256_values();
        }
        let u = read_uint(val, order);
        proof {
            law_twos_roundtrip(u as nat, 4);
        }
        from_twos_exec(u, 4) as i32
    }
}

impl ToAsRef<i32> for i32 {
    open spec fn encoded(&self, order: ByteOrder) -> Seq<u8> {
        bytes_of(twos(*self as int, 4), 4, order)
    }

    fn to_as_ref(&self, order: ByteOrder) -> (r: Vec<u8>) {
        proof {
            lemma_pow256_values();
        }
        write_uint(to_twos(*self as i128, 4), 4, order)
    }
}

impl<'a> FromMdbx<'a> for i64 {
    open spec fn decodable(bytes: Seq<u8>) -> bool {
        bytes.len() == 8
    }

    fn accepts(val: &[u8]) -> (r: bool) {
        val.len() == 8
    }

    open spec fn decodes(bytes: Seq<u8>, dirty_code: i32, order: ByteOrder, r: i64) -> bool {
        r as int == from_twos(value_of(bytes, order), 8)
    }

    fn from_mdbx(val: &'a [u8], dirty_code: i32, order: ByteOrder) -> (r: i64) {
        proof {
            lemma_pow256_values();
        }
        let u = read_uint(val, order);
        proof {
            law_twos_roundtrip(u as nat, 8);
        }
        from_twos_exec(u, 8) as i64
    }
}

impl ToAsRef<i64> for i64 {
    open spec fn encoded(&self, order: ByteOrder) -> Seq<u8> {
        bytes_of(twos(*self as int, 8), 8, order)
    }

    fn to_as_ref(&self, order: ByteOrder) -> (r: Vec<u8>) {
        proof {
            lemma_pow256_values();
        }
        write_uint(to_twos(*self as i128, 8), 8, order)
    }
}

impl<'a> FromMdbx<'a> for i128 {
    open spec fn decodable(bytes: Seq<u8>) -> bool {
        bytes.len() == 16
    }

    fn accepts(val: &[u8]) -> (r: bool) {
        val.len() == 16
    }

    open spec fn decodes(bytes: Seq<u8>, dirty_code: i32, order: ByteOrder, r: i128) -> bool {
        r as int == from_twos(value_of(bytes, order), 16)
    }

    fn from_mdbx(val: &'a [u8], dirty_code: i32, order: ByteOrder) -> (r: i128) {
        proof {
            lemma_pow256_values();
        }
        let u = read_uint(val, order);
        proof {
            law_twos_roundtrip(u as nat, 16);
        }
        from_twos_exec(u, 16) as i128
    }
}

impl ToAsRef<i128> for i128 {
    open spec fn encoded(&self, order: ByteOrder) -> Seq<u8> {
        bytes_of(twos(*self as int, 16), 16, order)
    }

    fn to_as_ref(&self, order: ByteOrder) -> (r: Vec<u8>) {
        proof {
            lemma_pow256_values();
        }
        write_uint(to_twos(*self as i128, 16), 16, order)
    }
}

impl<'a> FromMdbx<'a> for isize {
    open spec fn decodable(bytes: Seq<u8>) -> bool {
        bytes.len() == usize_size()
    }

    fn accepts(val: &[u8]) -> (r: bool) {
        val.len() == usize_bytes()
    }

    open spec fn decodes(bytes: Seq<u8>, dirty_code: i32, order: ByteOrder, r: isize) -> bool {
        r as int == from_twos(value_of(bytes, order), usize_size())
    }

    fn from_mdbx(val: &'a [u8], dirty_code: i32, order: ByteOrder) -> (r: isize) {
        let n = usize_bytes();
        let u = read_uint(val, order);
        proof {
            law_twos_roundtrip(u as nat, n as nat);
        }
        from_twos_exec(u, n) as isize
    }
}

impl ToAsRef<isize> for isize {
    open spec fn encoded(&self, order: ByteOrder) -> Seq<u8> {
        bytes_of(twos(*self as int, usize_size()), usize_size(), order)
    }

    fn to_as_ref(&self, order: ByteOrder) -> (r: Vec<u8>) {
        let n = usize_bytes();
        write_uint(to_twos(*self as i128, n), n, order)
    }
}

/// Law: a boolean stored with `to_as_ref` reads back as itself.
pub proof fn law_bool_roundtrip(x: bool, dirty_code: i32, o: ByteOrder)
    ensures
        <bool as FromMdbx<'static>>::decodable(<bool as ToAsRef<bool>>::encoded(&x, o)),
        <bool as FromMdbx<'static>>::decodes(<bool as ToAsRef<bool>>::encoded(&x, o), dirty_code, o, x),
{
}

/// Law: a `u8` stored with `to_as_ref` reads back as itself, in either byte order.
pub proof fn law_u8_roundtrip(x: u8, dirty_code: i32, o: ByteOrder)
    ensures
        <u8 as FromMdbx<'static>>::decodable(<u8 as ToAsRef<u8>>::encoded(&x, o)),
        <u8 as FromMdbx<'static>>::decodes(<u8 as ToAsRef<u8>>::encoded(&x, o), dirty_code, o, x),
{
    lemma_pow256_values();
    law_unsigned_roundtrip(x as nat, 1, o);
}

/// Law: a `u16` stored with `to_as_ref` reads back as itself, in either byte order.
pub proof fn law_u16_roundtrip(x: u16, dirty_code: i32, o: ByteOrder)
    ensures
        <u16 as FromMdbx<'static>>::decodable(<u16 as ToAsRef<u16>>::encoded(&x, o)),
        <u16 as FromMdbx<'static>>::decodes(<u16 as ToAsRef<u16>>::encoded(&x, o), dirty_code, o, x),
{
    lemma_pow256_values();
    law_unsigned_roundtrip(x as nat, 2, o);
}

/// Law: a `u32` stored with `to_as_ref` reads back as itself, in either byte order.
pub proof fn law_u32_roundtrip(x: u32, dirty_code: i32, o: ByteOrder)
    ensures
        <u32 as FromMdbx<'static>>::decodable(<u32 as ToAsRef<u32>>::encoded(&x, o)),
        <u32 as FromMdbx<'static>>::decodes(<u32 as ToAsRef<u32>>::encoded(&x, o), dirty_code, o, x),
{
    lemma_pow256_values();
    law_unsigned_roundtrip(x as nat, 4, o);
}

/// Law: a `u64` stored with `to_as_ref` reads back as itself, in either byte order.
pub proof fn law_u64_roundtrip(x: u64, dirty_code: i32, o: ByteOrder)
    ensures
        <u64 as FromMdbx<'static>>::decodable(<u64 as ToAsRef<u64>>::encoded(&x, o)),
        <u64 as FromMdbx<'static>>::decodes(<u64 as ToAsRef<u64>>::encoded(&x, o), dirty_code, o, x),
{
    lemma_pow256_values();
    law_unsigned_roundtrip(x as nat, 8, o);
}

/// Law: a `u128` stored with `to_as_ref` reads back as itself, in either byte order.
pub proof fn law_u128_roundtrip(x: u128, dirty_code: i32, o: ByteOrder)
    ensures
        <u128 as FromMdbx<'static>>::decodable(<u128 as ToAsRef<u128>>::encoded(&x, o)),
        <u128 as FromMdbx<'static>>::decodes(<u128 as ToAsRef<u128>>::encoded(&x, o), dirty_code, o, x),
{
    lemma_pow256_values();
    law_unsigned_roundtrip(x as nat, 16, o);
}

/// Law: a `usize` stored with `to_as_ref` reads back as itself, in either byte order.
pub proof fn law_usize_roundtrip(x: usize, dirty_code: i32, o: ByteOrder)
    ensures
        <usize as FromMdbx<'static>>::decodable(<usize as ToAsRef<usize>>::encoded(&x, o)),
        <usize as FromMdbx<'static>>::decodes(<usize as ToAsRef<usize>>::encoded(&x, o), dirty_code, o, x),
{
    lemma_pow256_values();
    law_unsigned_roundtrip(x as nat, usize_size(), o);
}

/// Law: an `i8` stored with `to_as_ref` reads back as itself, in either byte order.
pub proof fn law_i8_roundtrip(x: i8, dirty_code: i32, o: ByteOrder)
    ensures
        <i8 as FromMdbx<'static>>::decodable(<i8 as ToAsRef<i8>>::encoded(&x, o)),
        <i8 as FromMdbx<'static>>::decodes(<i8 as ToAsRef<i8>>::encoded(&x, o), dirty_code, o, x),
{
    lemma_pow256_values();
    law_signed_roundtrip(x as int, 1);
    law_unsigned_roundtrip(twos(x as int, 1), 1, o);
}

/// Law: an `i16` stored with `to_as_ref` reads back as itself, in either byte order.
pub proof fn law_i16_roundtrip(x: i16, dirty_code: i32, o: ByteOrder)
    ensures
        <i16 as FromMdbx<'static>>::decodable(<i16 as ToAsRef<i16>>::encoded(&x, o)),
        <i16 as FromMdbx<'static>>::decodes(<i16 as ToAsRef<i16>>::encoded(&x, o), dirty_code, o, x),
{
    lemma_pow256_values();
    law_signed_roundtrip(x as int, 2);
    law_unsigned_roundtrip(twos(x as int, 2), 2, o);
}

/// Law: an `i32` stored with `to_as_ref` reads back as itself, in either byte order.
pub proof fn law_i32_roundtrip(x: i32, dirty_code: i32, o: ByteOrder)
    ensures
        <i32 as FromMdbx<'static>>::decodable(<i32 as ToAsRef<i32>>::encoded(&x, o)),
        <i32 as FromMdbx<'static>>::decodes(<i32 as ToAsRef<i32>>::encoded(&x, o), dirty_code, o, x),
{
    lemma_pow256_values();
    law_signed_roundtrip(x as int, 4);
    law_unsigned_roundtrip(twos(x as int, 4), 4, o);
}

/// Law: an `i64` stored with `to_as_ref` reads back as itself, in either byte order.
pub proof fn law_i64_roundtrip(x: i64, dirty_code: i32, o: ByteOrder)
    ensures
        <i64 as FromMdbx<'static>>::decodable(<i64 as ToAsRef<i64>>::encoded(&x, o)),
        <i64 as FromMdbx<'static>>::decodes(<i64 as ToAsRef<i64>>::encoded(&x, o), dirty_code, o, x),
{
    lemma_pow256_values();
    law_signed_roundtrip(x as int, 8);
    law_unsigned_roundtrip(twos(x as int, 8), 8, o);
}

/// Law: an `i128` stored with `to_as_ref` reads back as itself, in either byte order.
pub proof fn law_i128_roundtrip(x: i128, dirty_code: i32, o: ByteOrder)
    ensures
        <i128 as FromMdbx<'static>>::decodable(<i128 as ToAsRef<i128>>::encoded(&x, o)),
        <i128 as FromMdbx<'static>>::decodes(<i128 as ToAsRef<i128>>::encoded(&x, o), dirty_code, o, x),
{
    lemma_pow256_values();
    law_signed_roundtrip(x as int, 16);
    law_unsigned_roundtrip(twos(x as int, 16), 16, o);
}

/// Law: an `isize` stored with `to_as_ref` reads back as itself, in either byte order.
pub proof fn law_isize_roundtrip(x: isize, dirty_code: i32, o: ByteOrder)
    ensures
        <isize as FromMdbx<'static>>::decodable(<isize as ToAsRef<isize>>::encoded(&x, o)),
        <isize as FromMdbx<'static>>::decodes(<isize as ToAsRef<isize>>::encoded(&x, o), dirty_code, o, x),
{
    lemma_pow256_values();
    law_signed_roundtrip(x as int, usize_size());
    law_unsigned_roundtrip(twos(x as int, usize_size()), usize_size(), o);
}

/// Calls `std::str::from_utf8`, which accepts exactly the byte strings that
/// are valid UTF-8 and then gives the text that those bytes encode.
#[verifier::external_body]
fn utf8_text(b: &[u8]) -> (r: Option<&str>)
    ensures
        r is Some <==> valid_utf8(b@),
        r matches Some(t) ==> t.spec_bytes() == b@,
{
    std::str::from_utf8(b).ok()
}

/// Calls `<&[u8; N]>::try_from` on a slice, which succeeds exactly when the
/// slice has `N` elements and then views the same bytes as an array.
#[verifier::external_body]
fn slice_as_array<const N: usize>(b: &[u8]) -> (r: Option<&[u8; N]>)
    ensures
        r is Some <==> b@.len() == N,
        r matches Some(a) ==> a@ == b@,
{
    <&[u8; N]>::try_from(b).ok()
}

/// The text that valid UTF-8 bytes encode.
fn bytes_as_text(b: &[u8]) -> (r: &str)
    requires
        valid_utf8(b@),
    ensures
        r@ == decode_utf8(b@),
        r.spec_bytes() == b@,
{
    let t = utf8_text(b).unwrap();
    proof {
        encode_utf8_decode_utf8(t@);
    }
    t
}

/// A copy of the bytes.
fn copy_bytes(b: &[u8]) -> (r: Vec<u8>)
    ensures
        r@ == b@,
{
    let mut v: Vec<u8> = Vec::new();
    let mut i: usize = 0;
    while i < b.len()
        invariant
            i <= b@.len(),
            v@ == b@.take(i as int),
        decreases b@.len() - i,
    {
        v.push(b[i]);
        i = i + 1;
        assert(v@ =~= b@.take(i as int));
    }
    assert(b@.take(b@.len() as int) =~= b@);
    v
}

/// A stored binary value: a copy of the stored bytes, or the bytes where
/// libmdbx keeps them.
#[derive(Debug, PartialEq, Eq, PartialOrd, Ord, Hash)]
pub struct Bin<'a>(pub Cow<'a, [u8]>);

/// A stored text value, kept as the bytes that were stored: a copy, or the
/// bytes where libmdbx keeps them.
#[derive(Debug, PartialEq, Eq, PartialOrd, Ord, Hash)]
pub struct Str<'a>(pub Cow<'a, [u8]>);

/// The bytes that a copied or borrowed value holds.
fn cow_bytes<'b>(c: &'b Cow<'_, [u8]>) -> (r: &'b [u8])
    ensures
        r@ == c@,
{
    match c {
        Cow::Borrowed(b) => *b,
        Cow::Owned(v) => v.as_slice(),
    }
}

/// Whether two byte strings are equal.
fn bytes_eq(a: &[u8], b: &[u8]) -> (r: bool)
    ensures
        r == (a@ == b@),
{
    if a.len() != b.len() {
        return false;
    }
    let mut i: usize = 0;
    while i < b.len()
        invariant
            a@.len() == b@.len(),
            i <= b@.len(),
            forall|k: int| 0 <= k < i ==> a@[k] == b@[k],
        decreases b@.len() - i,
    {
        if a[i] != b[i] {
            return false;
        }
        i = i + 1;
    }
    assert(a@ =~= b@);
    true
}

impl<'a> Bin<'a> {
    /// Whether the value holds exactly the given bytes.
    pub fn eq_bytes(&self, other: &[u8]) -> (r: bool)
        ensures
            r == (self.0@ == other@),
    {
        bytes_eq(cow_bytes(&self.0), other)
    }

    /// The stored bytes.
    pub fn as_bytes(&self) -> (r: &[u8])
        ensures
            r@ == self.0@,
    {
        cow_bytes(&self.0)
    }

    /// The bytes as an array of `N` bytes; there must be exactly `N`.
    pub fn as_array<const N: usize>(&self) -> (r: &[u8; N])
        requires
            self.0@.len() == N,
        ensures
            r@ == self.0@,
    {
        slice_as_array::<N>(cow_bytes(&self.0)).unwrap()
    }

    /// The text that the bytes encode; they must be valid UTF-8.
    pub fn as_str(&self) -> (r: &str)
        requires
            valid_utf8(self.0@),
        ensures
            r@ == decode_utf8(self.0@),
            r.spec_bytes() == self.0@,
    {
        bytes_as_text(cow_bytes(&self.0))
    }

    /// The text that the bytes encode; they must be valid UTF-8.
    pub fn into_string(self) -> (r: String)
        requires
            valid_utf8(self.0@),
        ensures
            r@ == decode_utf8(self.0@),
    {
        bytes_as_text(cow_bytes(&self.0)).to_owned()
    }

    /// The bytes written as a list of decimal numbers, as `[1, 2, 3]`.
    pub fn render(&self) -> (r: String)
        ensures
            r@ == "["@ + join_spec(self.0@.map_values(|b: u8| decimal(b as nat)), ", "@) + "]"@,
    {
        let bytes = cow_bytes(&self.0);
        let mut parts: Vec<String> = Vec::new();
        let mut i: usize = 0;
        while i < bytes.len()
            invariant
                bytes@ == self.0@,
                i <= bytes@.len(),
                views(parts@) == bytes@.take(i as int).map_values(|b: u8| decimal(b as nat)),
            decreases bytes@.len() - i,
        {
            let d = decimal_string(bytes[i] as u64);
            let ghost before = parts@;
            parts.push(d);
            assert(views(parts@) =~= bytes@.take(i + 1).map_values(|b: u8| decimal(b as nat))) by {
                assert(views(parts@) =~= views(before).push(d@));
            }
            i = i + 1;
        }
        assert(bytes@.take(bytes@.len() as int) =~= bytes@);
        let inner = join_with(&parts, ", ");
        let mut out = String::from_str("[");
        out.append(inner.as_str());
        out.append("]");
        out
    }
}

impl<'a> Str<'a> {
    /// Whether the value holds exactly the given bytes.
    pub fn eq_bytes(&self, other: &[u8]) -> (r: bool)
        ensures
            r == (self.0@ == other@),
    {
        bytes_eq(cow_bytes(&self.0), other)
    }

    /// The stored bytes.
    pub fn as_bytes(&self) -> (r: &[u8])
        ensures
            r@ == self.0@,
    {
        cow_bytes(&self.0)
    }

    /// The stored text; the bytes must be valid UTF-8.
    pub fn as_str(&self) -> (r: &str)
        requires
            valid_utf8(self.0@),
        ensures
            r@ == decode_utf8(self.0@),
            r.spec_bytes() == self.0@,
    {
        bytes_as_text(cow_bytes(&self.0))
    }

    /// The stored text as an owned string; the bytes must be valid UTF-8.
    pub fn into_string(self) -> (r: String)
        requires
            valid_utf8(self.0@),
        ensures
            r@ == decode_utf8(self.0@),
    {
        bytes_as_text(cow_bytes(&self.0)).to_owned()
    }
}

impl<'a> FromMdbx<'a> for Bin<'a> {
    open spec fn decodable(bytes: Seq<u8>) -> bool {
        true
    }

    fn accepts(val: &[u8]) -> (r: bool) {
        true
    }

    /// The bytes, copied when the dirty-page test answered success and
    /// borrowed from where libmdbx keeps them otherwise.
    open spec fn decodes(bytes: Seq<u8>, dirty_code: i32, order: ByteOrder, r: Bin<'a>) -> bool {
        &&& r.0@ == bytes
        &&& (dirty_code == MDBX_SUCCESS <==> r.0 is Owned)
    }

    fn from_mdbx(val: &'a [u8], dirty_code: i32, order: ByteOrder) -> (r: Bin<'a>) {
        Bin(cow_val(val, dirty_code))
    }
}

impl<'a> FromMdbx<'a> for Str<'a> {
    open spec fn decodable(bytes: Seq<u8>) -> bool {
        true
    }

    fn accepts(val: &[u8]) -> (r: bool) {
        true
    }

    /// The bytes, copied when the dirty-page test answered success and
    /// borrowed from where libmdbx keeps them otherwise.
    open spec fn decodes(bytes: Seq<u8>, dirty_code: i32, order: ByteOrder, r: Str<'a>) -> bool {
        &&& r.0@ == bytes
        &&& (dirty_code == MDBX_SUCCESS <==> r.0 is Owned)
    }

    fn from_mdbx(val: &'a [u8], dirty_code: i32, order: ByteOrder) -> (r: Str<'a>) {
        Str(cow_val(val, dirty_code))
    }
}

impl<'k> ToAsRef<Bin<'k>> for Vec<u8> {
    open spec fn encoded(&self, order: ByteOrder) -> Seq<u8> {
        self@
    }

    fn to_as_ref(&self, order: ByteOrder) -> (r: Vec<u8>) {
        copy_bytes(self.as_slice())
    }
}

impl<'k> ToAsRef<Bin<'k>> for String {
    open spec fn encoded(&self, order: ByteOrder) -> Seq<u8> {
        encode_utf8(self@)
    }

    fn to_as_ref(&self, order: ByteOrder) -> (r: Vec<u8>) {
        self.as_str().as_bytes_vec()
    }
}

impl<'k, 'a> ToAsRef<Bin<'k>> for &'a [u8] {
    open spec fn encoded(&self, order: ByteOrder) -> Seq<u8> {
        (*self)@
    }

    fn to_as_ref(&self, order: ByteOrder) -> (r: Vec<u8>) {
        copy_bytes(*self)
    }
}

impl<'k, 'a> ToAsRef<Bin<'k>> for &'a str {
    open spec fn encoded(&self, order: ByteOrder) -> Seq<u8> {
        encode_utf8((*self)@)
    }

    fn to_as_ref(&self, order: ByteOrder) -> (r: Vec<u8>) {
        (*self).as_bytes_vec()
    }
}

impl<'k, const N: usize> ToAsRef<Bin<'k>> for [u8; N] {
    open spec fn encoded(&self, order: ByteOrder) -> Seq<u8> {
        self@
    }

    fn to_as_ref(&self, order: ByteOrder) -> (r: Vec<u8>) {
        copy_bytes(self.as_slice())
    }
}

impl<'k, 'a, const N: usize> ToAsRef<Bin<'k>> for &'a [u8; N] {
    open spec fn encoded(&self, order: ByteOrder) -> Seq<u8> {
        (*self)@
    }

    fn to_as_ref(&self, order: ByteOrder) -> (r: Vec<u8>) {
        copy_bytes((*self).as_slice())
    }
}

impl<'k> ToAsRef<Str<'k>> for Vec<u8> {
    open spec fn encoded(&self, order: ByteOrder) -> Seq<u8> {
        self@
    }

    fn to_as_ref(&self, order: ByteOrder) -> (r: Vec<u8>) {
        copy_bytes(self.as_slice())
    }
}

impl<'k> ToAsRef<Str<'k>> for String {
    open spec fn encoded(&self, order: ByteOrder) -> Seq<u8> {
        encode_utf8(self@)
    }

    fn to_as_ref(&self, order: ByteOrder) -> (r: Vec<u8>) {
        self.as_str().as_bytes_vec()
    }
}

impl<'k, 'a> ToAsRef<Str<'k>> for &'a [u8] {
    open spec fn encoded(&self, order: ByteOrder) -> Seq<u8> {
        (*self)@
    }

    fn to_as_ref(&self, order: ByteOrder) -> (r: Vec<u8>) {
        copy_bytes(*self)
    }
}

impl<'k, 'a> ToAsRef<Str<'k>> for &'a str {
    open spec fn encoded(&self, order: ByteOrder) -> Seq<u8> {
        encode_utf8((*self)@)
    }

    fn to_as_ref(&self, order: ByteOrder) -> (r: Vec<u8>) {
        (*self).as_bytes_vec()
    }
}

impl<'k, const N: usize> ToAsRef<Str<'k>> for [u8; N] {
    open spec fn encoded(&self, order: ByteOrder) -> Seq<u8> {
        self@
    }

    fn to_as_ref(&self, order: ByteOrder) -> (r: Vec<u8>) {
        copy_bytes(self.as_slice())
    }
}

impl<'k, 'a, const N: usize> ToAsRef<Str<'k>> for &'a [u8; N] {
    open spec fn encoded(&self, order: ByteOrder) -> Seq<u8> {
        (*self)@
    }

    fn to_as_ref(&self, order: ByteOrder) -> (r: Vec<u8>) {
        copy_bytes((*self).as_slice())
    }
}

/// Law: bytes stored from a `Vec<u8>` read back as a `Bin` holding the same bytes.
pub proof fn law_bin_roundtrip(x: Vec<u8>, dirty_code: i32, o: ByteOrder)
    ensures
        <Bin<'static> as FromMdbx<'static>>::decodable(
            <Vec<u8> as ToAsRef<Bin<'static>>>::encoded(&x, o),
        ),
        forall|r: Bin<'static>|
            <Bin<'static> as FromMdbx<'static>>::decodes(
                <Vec<u8> as ToAsRef<Bin<'static>>>::encoded(&x, o),
                dirty_code,
                o,
                r,
            ) ==> r.0@ == x@,
{
}

/// Law: a string stored as a `Str` reads back as the same text.
pub proof fn law_str_roundtrip(x: String, dirty_code: i32, o: ByteOrder)
    ensures
        <Str<'static> as FromMdbx<'static>>::decodable(
            <String as ToAsRef<Str<'static>>>::encoded(&x, o),
        ),
        forall|r: Str<'static>|
            <Str<'static> as FromMdbx<'static>>::decodes(
                <String as ToAsRef<Str<'static>>>::encoded(&x, o),
                dirty_code,
                o,
                r,
            ) ==> valid_utf8(r.0@) && decode_utf8(r.0@) == x@,
{
    encode_utf8_valid_utf8(x@);
    encode_utf8_decode_utf8(x@);
}

/// What a read answers for its result code and the bytes it found: the
/// stored value when the code is success, nothing when the key was not
/// found, an `Error` carrying any other code.
pub fn get_result<'a, V: FromMdbx<'a>>(code: i32, val: &'a [u8], dirty_code: i32, order: ByteOrder) -> (r: Result<
    Option<V>,
    Error,
>)
    requires
        code == MDBX_SUCCESS ==> V::decodable(val@),
    ensures
        code == MDBX_SUCCESS ==> (r matches Ok(Some(v)) && V::decodes(val@, dirty_code, order, v)),
        code == MDBX_NOTFOUND ==> r matches Ok(None),
        code != MDBX_SUCCESS && code != MDBX_NOTFOUND ==> r == Err::<Option<V>, Error>(Error(code)),
{
    if code == MDBX_SUCCESS {
        Ok(Some(V::from_mdbx(val, dirty_code, order)))
    } else if code == MDBX_NOTFOUND {
        Ok(None)
    } else {
        Err(Error(code))
    }
}

} // verus!
