use vstd::prelude::*;

verus! {

/// A value held by one directory entry.
pub enum TiffValue {
    /// Unsigned bytes (TIFF type 1).
    Byte(Vec<u8>),
    /// Text, stored with a terminating NUL that is not part of the vector
    /// (type 2).
    Ascii(Vec<u8>),
    /// One 16-bit unsigned integer (type 3).
    Short(u16),
    /// One 32-bit unsigned integer (type 4).
    Long(u32),
    /// Fractions, each a numerator and a denominator (type 5).
    Rational(Vec<(u32, u32)>),
    /// Opaque bytes (type 7).
    Undefined(Vec<u8>),
}

/// One record of an image file directory: a tag and its value.
pub struct TiffEntry {
    pub tag: u16,
    pub value: TiffValue,
}

/// What a value is, as the format sees it.
pub enum ValueModel {
    Byte(Seq<u8>),
    Ascii(Seq<u8>),
    Short(u16),
    Long(u32),
    Rational(Seq<(u32, u32)>),
    Undefined(Seq<u8>),
}

pub struct EntryModel {
    pub tag: u16,
    pub value: ValueModel,
}

impl View for TiffValue {
    type V = ValueModel;

    open spec fn view(&self) -> ValueModel {
        match self {
            TiffValue::Byte(b) => ValueModel::Byte(b@),
            TiffValue::Ascii(s) => ValueModel::Ascii(s@),
            TiffValue::Short(x) => ValueModel::Short(*x),
            TiffValue::Long(x) => ValueModel::Long(*x),
            TiffValue::Rational(rs) => ValueModel::Rational(rs@),
            TiffValue::Undefined(b) => ValueModel::Undefined(b@),
        }
    }
}

impl View for TiffEntry {
    type V = EntryModel;

    open spec fn view(&self) -> EntryModel {
        EntryModel { tag: self.tag, value: self.value@ }
    }
}

pub open spec fn models(es: Seq<TiffEntry>) -> Seq<EntryModel> {
    es.map_values(|e: TiffEntry| e@)
}

pub open spec fn le16(v: u16) -> Seq<u8> {
    seq![(v % 256) as u8, (v / 256) as u8]
}

pub open spec fn le32(v: u32) -> Seq<u8> {
    seq![(v % 256) as u8, ((v / 256) % 256) as u8, ((v / 65536) % 256) as u8, (v / 16777216) as u8]
}

pub open spec fn rationals_bytes(rs: Seq<(u32, u32)>) -> Seq<u8>
    decreases rs.len(),
{
    if rs.len() == 0 {
        seq![]
    } else {
        rationals_bytes(rs.drop_last()) + le32(rs.last().0) + le32(rs.last().1)
    }
}

/// The bytes that hold a value, wherever they are stored.
pub open spec fn value_bytes(v: ValueModel) -> Seq<u8> {
    match v {
        ValueModel::Byte(b) => b,
        ValueModel::Ascii(s) => s.push(0u8),
        ValueModel::Short(x) => le16(x),
        ValueModel::Long(x) => le32(x),
        ValueModel::Rational(rs) => rationals_bytes(rs),
        ValueModel::Undefined(b) => b,
    }
}

pub open spec fn type_code(v: ValueModel) -> u16 {
    match v {
        ValueModel::Byte(_) => 1,
        ValueModel::Ascii(_) => 2,
        ValueModel::Short(_) => 3,
        ValueModel::Long(_) => 4,
        ValueModel::Rational(_) => 5,
        ValueModel::Undefined(_) => 7,
    }
}

/// The number of components of the value's type.
pub open spec fn value_count(v: ValueModel) -> int {
    match v {
        ValueModel::Byte(b) => b.len() as int,
        ValueModel::Ascii(s) => s.len() + 1int,
        ValueModel::Short(_) => 1,
        ValueModel::Long(_) => 1,
        ValueModel::Rational(rs) => rs.len() as int,
        ValueModel::Undefined(b) => b.len() as int,
    }
}

/// Values of at most four bytes live in the entry itself.
pub open spec fn is_inline(v: ValueModel) -> bool {
    value_bytes(v).len() <= 4
}

/// Bytes that a value takes in the data area after its directory.
pub open spec fn stored_size(v: ValueModel) -> nat {
    if is_inline(v) {
        0
    } else {
        value_bytes(v).len()
    }
}

pub open spec fn zeros(n: nat) -> Seq<u8> {
    Seq::new(n, |i: int| 0u8)
}

/// The last four bytes of an entry: the value itself, padded with zeros,
/// or the offset of the value.
pub open spec fn value_slot(v: ValueModel, offset: u32) -> Seq<u8> {
    if is_inline(v) {
        value_bytes(v) + zeros((4 - value_bytes(v).len()) as nat)
    } else {
        le32(offset)
    }
}

pub open spec fn entry_bytes(e: EntryModel, offset: u32) -> Seq<u8> {
    le16(e.tag) + le16(type_code(e.value)) + le32(value_count(e.value) as u32) + value_slot(
        e.value,
        offset,
    )
}

/// The size of the data area of a directory holding `es`.
pub open spec fn data_size(es: Seq<EntryModel>) -> nat
    decreases es.len(),
{
    if es.len() == 0 {
        0
    } else {
        data_size(es.drop_last()) + stored_size(es.last().value)
    }
}

/// The offset of the data of entry `i`: the start of the data area plus the
/// sizes of the values before it.
pub open spec fn data_offset(es: Seq<EntryModel>, data_start: int, i: int) -> int {
    data_start + data_size(es.take(i))
}

pub open spec fn entries_bytes(es: Seq<EntryModel>, data_start: int) -> Seq<u8>
    decreases es.len(),
{
    if es.len() == 0 {
        seq![]
    } else {
        entries_bytes(es.drop_last(), data_start) + entry_bytes(
            es.last(),
            (data_start + data_size(es.drop_last())) as u32,
        )
    }
}

/// The data area: the values that do not fit in their entries, in entry order.
pub open spec fn values_bytes(es: Seq<EntryModel>) -> Seq<u8>
    decreases es.len(),
{
    if es.len() == 0 {
        seq![]
    } else {
        values_bytes(es.drop_last()) + (if is_inline(es.last().value) {
            seq![]
        } else {
            value_bytes(es.last().value)
        })
    }
}

pub open spec fn directory_len(n: int) -> int {
    6 + 12 * n
}

/// Entry count, entries, and a zero link: no directory follows.
pub open spec fn directory_bytes(es: Seq<EntryModel>, data_start: int) -> Seq<u8> {
    le16(es.len() as u16) + entries_bytes(es, data_start) + le32(0)
}

/// Little-endian byte order mark, the number 42, and the offset 8 of the
/// first directory.
pub open spec fn tiff_header() -> Seq<u8> {
    seq![0x49u8, 0x49u8, 0x2au8, 0u8, 8u8, 0u8, 0u8, 0u8]
}

pub open spec fn gps_directory_start(ifd0: Seq<EntryModel>) -> int {
    8 + directory_len(ifd0.len() as int)
}

pub open spec fn gps_data_start(ifd0: Seq<EntryModel>, gps: Seq<EntryModel>) -> int {
    gps_directory_start(ifd0) + if gps.len() == 0 {
        0
    } else {
        directory_len(gps.len() as int)
    }
}

pub open spec fn ifd0_data_start(ifd0: Seq<EntryModel>, gps: Seq<EntryModel>) -> int {
    gps_data_start(ifd0, gps) + data_size(gps)
}

pub open spec fn gps_part(ifd0: Seq<EntryModel>, gps: Seq<EntryModel>) -> Seq<u8> {
    if gps.len() == 0 {
        seq![]
    } else {
        directory_bytes(gps, gps_data_start(ifd0, gps)) + values_bytes(gps)
    }
}

/// The whole segment: header, the first directory, the GPS directory and its
/// data, then the data of the first directory.
pub open spec fn tiff_bytes(ifd0: Seq<EntryModel>, gps: Seq<EntryModel>) -> Seq<u8> {
    tiff_header() + directory_bytes(ifd0, ifd0_data_start(ifd0, gps)) + gps_part(ifd0, gps)
        + values_bytes(ifd0)
}

pub open spec fn tiff_len(ifd0: Seq<EntryModel>, gps: Seq<EntryModel>) -> int {
    ifd0_data_start(ifd0, gps) + data_size(ifd0)
}

pub open spec fn value_fits(v: ValueModel) -> bool {
    value_bytes(v).len() <= u32::MAX
}

/// The limits of the format: entry counts are 16-bit, offsets and counts
/// 32-bit.
pub open spec fn layout_fits(ifd0: Seq<EntryModel>, gps: Seq<EntryModel>) -> bool {
    &&& ifd0.len() <= 65535
    &&& gps.len() <= 65535
    &&& (forall|i: int| 0 <= i < ifd0.len() ==> value_fits(#[trigger] ifd0[i].value))
    &&& (forall|i: int| 0 <= i < gps.len() ==> value_fits(#[trigger] gps[i].value))
    &&& tiff_len(ifd0, gps) <= u32::MAX
}

fn push_u16(out: &mut Vec<u8>, v: u16)
    ensures
        final(out)@ == old(out)@ + le16(v),
{
    out.push((v % 256) as u8);
    out.push((v / 256) as u8);
    assert(final(out)@ =~= old(out)@ + le16(v));
}

fn push_u32(out: &mut Vec<u8>, v: u32)
    ensures
        final(out)@ == old(out)@ + le32(v),
{
    out.push((v % 256) as u8);
    out.push(((v / 256) % 256) as u8);
    out.push(((v / 65536) % 256) as u8);
    out.push((v / 16777216) as u8);
    assert(final(out)@ =~= old(out)@ + le32(v));
}

pub proof fn lemma_rationals_len(rs: Seq<(u32, u32)>)
    ensures
        rationals_bytes(rs).len() == 8 * rs.len(),
    decreases rs.len(),
{
    if rs.len() > 0 {
        lemma_rationals_len(rs.drop_last());
    }
}

fn push_rationals(out: &mut Vec<u8>, rs: &Vec<(u32, u32)>)
    ensures
        final(out)@ == old(out)@ + rationals_bytes(rs@),
{
    let ghost start = out@;
    let mut i: usize = 0;
    while i < rs.len()
        invariant
            i <= rs.len(),
            out@ == start + rationals_bytes(rs@.take(i as int)),
        decreases rs.len() - i,
    {
        let (n, d) = rs[i];
        push_u32(out, n);
        push_u32(out, d);
        proof {
            let t = rs@.take(i + 1);
            assert(t.drop_last() =~= rs@.take(i as int));
            assert(t.last() == rs@[i as int]);
        }
        i = i + 1;
        assert(out@ =~= start + rationals_bytes(rs@.take(i as int)));
    }
    assert(rs@.take(i as int) =~= rs@);
}

/// The number of bytes of a value.
fn value_len(v: &TiffValue) -> (r: u64)
    requires
        value_fits(v@),
    ensures
        r == value_bytes(v@).len(),
{
    match v {
        TiffValue::Byte(b) => b.len() as u64,
        TiffValue::Ascii(s) => s.len() as u64 + 1,
        TiffValue::Short(_) => 2,
        TiffValue::Long(_) => 4,
        TiffValue::Rational(rs) => {
            proof {
                lemma_rationals_len(rs@);
            }
            rs.len() as u64 * 8
        },
        TiffValue::Undefined(b) => b.len() as u64,
    }
}

fn push_value(out: &mut Vec<u8>, v: &TiffValue)
    ensures
        final(out)@ == old(out)@ + value_bytes(v@),
{
    match v {
        TiffValue::Byte(b) => {
            out.extend_from_slice(b.as_slice());
        },
        TiffValue::Ascii(s) => {
            out.extend_from_slice(s.as_slice());
            out.push(0u8);
            assert(final(out)@ =~= old(out)@ + value_bytes(v@));
        },
        TiffValue::Short(x) => push_u16(out, *x),
        TiffValue::Long(x) => push_u32(out, *x),
        TiffValue::Rational(rs) => push_rationals(out, rs),
        TiffValue::Undefined(b) => {
            out.extend_from_slice(b.as_slice());
        },
    }
}

fn push_zeros(out: &mut Vec<u8>, n: u64)
    ensures
        final(out)@ == old(out)@ + zeros(n as nat),
{
    let ghost start = out@;
    let mut i: u64 = 0;
    while i < n
        invariant
            i <= n,
            out@ == start + zeros(i as nat),
        decreases n - i,
    {
        out.push(0u8);
        i = i + 1;
        assert(out@ =~= start + zeros(i as nat));
    }
}

fn push_entry(out: &mut Vec<u8>, e: &TiffEntry, offset: u32)
    requires
        value_fits(e.value@),
    ensures
        final(out)@ == old(out)@ + entry_bytes(e@, offset),
{
    let ghost start = out@;
    push_u16(out, e.tag);
    let len = value_len(&e.value);
    let (code, count): (u16, u32) = match &e.value {
        TiffValue::Byte(b) => (1, b.len() as u32),
        TiffValue::Ascii(s) => (2, (s.len() + 1) as u32),
        TiffValue::Short(_) => (3, 1),
        TiffValue::Long(_) => (4, 1),
        TiffValue::Rational(rs) => {
            proof {
                lemma_rationals_len(rs@);
            }
            (5, rs.len() as u32)
        },
        TiffValue::Undefined(b) => (7, b.len() as u32),
    };
    push_u16(out, code);
    push_u32(out, count);
    if len <= 4 {
        push_value(out, &e.value);
        push_zeros(out, 4 - len);
    } else {
        push_u32(out, offset);
    }
    assert(out@ =~= start + entry_bytes(e@, offset));
}

proof fn lemma_data_size_prefix(es: Seq<EntryModel>, i: int)
    requires
        0 <= i <= es.len(),
    ensures
        data_size(es.take(i)) <= data_size(es),
    decreases es.len(),
{
    if i < es.len() {
        assert(es.drop_last().take(i) =~= es.take(i));
        lemma_data_size_prefix(es.drop_last(), i);
    } else {
        assert(es.take(i) =~= es);
    }
}

proof fn lemma_take_step(es: Seq<EntryModel>, i: int)
    requires
        0 <= i < es.len(),
    ensures
        es.take(i + 1).drop_last() == es.take(i),
        es.take(i + 1).last() == es[i],
{
    assert(es.take(i + 1).drop_last() =~= es.take(i));
}

/// Computes the size of the data area of a directory.
fn compute_data_size(es: &Vec<TiffEntry>) -> (r: u64)
    requires
        forall|i: int| 0 <= i < es.len() ==> value_fits(#[trigger] models(es@)[i].value),
        data_size(models(es@)) <= u32::MAX,
    ensures
        r == data_size(models(es@)),
{
    let mut total: u64 = 0;
    let mut i: usize = 0;
    while i < es.len()
        invariant
            i <= es.len(),
            forall|k: int| 0 <= k < es.len() ==> value_fits(#[trigger] models(es@)[k].value),
            data_size(models(es@)) <= u32::MAX,
            total == data_size(models(es@).take(i as int)),
        decreases es.len() - i,
    {
        proof {
            lemma_take_step(models(es@), i as int);
            lemma_data_size_prefix(models(es@), i + 1);
        }
        let len = value_len(&es[i].value);
        if len > 4 {
            total = total + len;
        }
        i = i + 1;
    }
    assert(models(es@).take(i as int) =~= models(es@));
    total
}

/// Writes a directory whose data area starts at `data_start`.
fn push_directory(out: &mut Vec<u8>, es: &Vec<TiffEntry>, data_start: u32)
    requires
        es.len() <= 65535,
        forall|i: int| 0 <= i < es.len() ==> value_fits(#[trigger] models(es@)[i].value),
        data_start + data_size(models(es@)) <= u32::MAX,
    ensures
        final(out)@ == old(out)@ + directory_bytes(models(es@), data_start as int),
{
    let ghost start = out@;
    push_u16(out, es.len() as u16);
    let mut offset: u32 = data_start;
    let mut i: usize = 0;
    while i < es.len()
        invariant
            i <= es.len(),
            es.len() <= 65535,
            forall|k: int| 0 <= k < es.len() ==> value_fits(#[trigger] models(es@)[k].value),
            data_start + data_size(models(es@)) <= u32::MAX,
            offset == data_start + data_size(models(es@).take(i as int)),
            out@ == start + le16(es.len() as u16) + entries_bytes(
                models(es@).take(i as int),
                data_start as int,
            ),
        decreases es.len() - i,
    {
        proof {
            lemma_take_step(models(es@), i as int);
            lemma_data_size_prefix(models(es@), i + 1);
        }
        push_entry(out, &es[i], offset);
        let len = value_len(&es[i].value);
        if len > 4 {
            offset = offset + len as u32;
        }
        i = i + 1;
    }
    assert(models(es@).take(i as int) =~= models(es@));
    push_u32(out, 0);
    assert(out@ =~= start + directory_bytes(models(es@), data_start as int));
}

/// Writes the data area of a directory.
fn push_values(out: &mut Vec<u8>, es: &Vec<TiffEntry>)
    requires
        forall|i: int| 0 <= i < es.len() ==> value_fits(#[trigger] models(es@)[i].value),
    ensures
        final(out)@ == old(out)@ + values_bytes(models(es@)),
{
    let ghost start = out@;
    let mut i: usize = 0;
    while i < es.len()
        invariant
            i <= es.len(),
            forall|k: int| 0 <= k < es.len() ==> value_fits(#[trigger] models(es@)[k].value),
            out@ == start + values_bytes(models(es@).take(i as int)),
        decreases es.len() - i,
    {
        proof {
            lemma_take_step(models(es@), i as int);
            assert(value_fits(models(es@)[i as int].value));
        }
        let len = value_len(&es[i].value);
        if len > 4 {
            push_value(out, &es[i].value);
        }
        i = i + 1;
        assert(out@ =~= start + values_bytes(models(es@).take(i as int)));
    }
    assert(models(es@).take(i as int) =~= models(es@));
}

/// Lays out a complete TIFF structure: header, the first directory (whose
/// entries must already hold the link to the GPS directory, if any), the GPS
/// directory with its data, then the data of the first directory.
pub fn write_tiff(ifd0: &Vec<TiffEntry>, gps: &Vec<TiffEntry>) -> (r: Vec<u8>)
    requires
        layout_fits(models(ifd0@), models(gps@)),
    ensures
        r@ == tiff_bytes(models(ifd0@), models(gps@)),
{
    let mut out: Vec<u8> = Vec::new();
    out.push(0x49u8);
    out.push(0x49u8);
    out.push(0x2au8);
    out.push(0u8);
    out.push(8u8);
    out.push(0u8);
    out.push(0u8);
    out.push(0u8);
    assert(out@ =~= tiff_header());
    let gps_size = compute_data_size(gps);
    let gps_dir: u32 = 8 + 6 + 12 * ifd0.len() as u32;
    let gps_data: u32 = if gps.len() == 0 {
        gps_dir
    } else {
        gps_dir + 6 + 12 * gps.len() as u32
    };
    let ifd0_data: u32 = gps_data + gps_size as u32;
    push_directory(&mut out, ifd0, ifd0_data);
    if gps.len() > 0 {
        push_directory(&mut out, gps, gps_data);
        push_values(&mut out, gps);
    }
    push_values(&mut out, ifd0);
    assert(out@ =~= tiff_bytes(models(ifd0@), models(gps@)));
    out
}

} // verus!

verus! {

pub open spec fn read_u16(s: Seq<u8>, at: int) -> int {
    s[at] + 256 * s[at + 1]
}

pub open spec fn read_u32(s: Seq<u8>, at: int) -> int {
    s[at] + 256 * s[at + 1] + 65536 * s[at + 2] + 16777216 * s[at + 3]
}

pub proof fn lemma_le16(v: u16)
    ensures
        read_u16(le16(v), 0) == v,
{
    let x = v as int;
    assert(x == x % 256 + 256 * (x / 256)) by (nonlinear_arith);
}

pub proof fn lemma_le32(v: u32)
    ensures
        read_u32(le32(v), 0) == v,
{
    let x = v as int;
    let a = x / 256;
    let b = x / 65536;
    assert(x == x % 256 + 256 * a) by (nonlinear_arith)
        requires
            a == x / 256,
    ;
    assert(a == a % 256 + 256 * (a / 256)) by (nonlinear_arith);
    assert(a / 256 == b) by {
        vstd::arithmetic::div_mod::lemma_div_denominator(x, 256, 256);
    }
    assert(b == b % 256 + 256 * (b / 256)) by (nonlinear_arith);
    assert(b / 256 == x / 16777216) by {
        vstd::arithmetic::div_mod::lemma_div_denominator(x, 65536, 256);
    }
}

proof fn lemma_entry_len(e: EntryModel, offset: u32)
    ensures
        entry_bytes(e, offset).len() == 12,
{
}

proof fn lemma_entries_len(es: Seq<EntryModel>, ds: int)
    ensures
        entries_bytes(es, ds).len() == 12 * es.len(),
    decreases es.len(),
{
    if es.len() > 0 {
        lemma_entries_len(es.drop_last(), ds);
        lemma_entry_len(es.last(), (ds + data_size(es.drop_last())) as u32);
    }
}

proof fn lemma_values_len(es: Seq<EntryModel>)
    ensures
        values_bytes(es).len() == data_size(es),
    decreases es.len(),
{
    if es.len() > 0 {
        lemma_values_len(es.drop_last());
    }
}

/// Entry `i` of a run of entries occupies bytes `12 i` to `12 i + 12`.
proof fn lemma_entries_bytes(es: Seq<EntryModel>, ds: int)
    ensures
        entries_bytes(es, ds).len() == 12 * es.len(),
        forall|i: int|
            0 <= i < es.len() ==> #[trigger] entries_bytes(es, ds).subrange(12 * i, 12 * i + 12)
                == entry_bytes(es[i], (ds + data_size(es.take(i))) as u32),
    decreases es.len(),
{
    if es.len() > 0 {
        let d = es.drop_last();
        lemma_entries_bytes(d, ds);
        let l = es.last();
        lemma_entry_len(l, (ds + data_size(d)) as u32);
        let all = entries_bytes(es, ds);
        assert forall|i: int| 0 <= i < es.len() implies #[trigger] all.subrange(12 * i, 12 * i + 12)
            == entry_bytes(es[i], (ds + data_size(es.take(i))) as u32) by {
            if i < d.len() {
                assert(d.take(i) =~= es.take(i));
                assert(all.subrange(12 * i, 12 * i + 12) =~= entries_bytes(d, ds).subrange(
                    12 * i,
                    12 * i + 12,
                ));
            } else {
                assert(es.take(i) =~= d);
                assert(all.subrange(12 * i, 12 * i + 12) =~= entry_bytes(
                    l,
                    (ds + data_size(d)) as u32,
                ));
            }
        }
    }
}

/// The value of entry `i`, where it is stored apart, occupies the data area
/// from the sum of the sizes before it.
proof fn lemma_values_bytes(es: Seq<EntryModel>)
    ensures
        values_bytes(es).len() == data_size(es),
        forall|i: int|
            0 <= i < es.len() && !is_inline(es[i].value) ==> #[trigger] values_bytes(es).subrange(
                data_size(es.take(i)) as int,
                (data_size(es.take(i)) + value_bytes(es[i].value).len()) as int,
            ) == value_bytes(es[i].value),
    decreases es.len(),
{
    if es.len() > 0 {
        let d = es.drop_last();
        lemma_values_bytes(d);
        let all = values_bytes(es);
        assert forall|i: int| 0 <= i < es.len() && !is_inline(es[i].value) implies #[trigger] all.subrange(
            data_size(es.take(i)) as int,
            (data_size(es.take(i)) + value_bytes(es[i].value).len()) as int,
        ) == value_bytes(es[i].value) by {
            if i < d.len() {
                assert(d.take(i) =~= es.take(i));
                lemma_data_size_prefix(d, i + 1);
                assert(d.take(i + 1).drop_last() =~= d.take(i));
                assert(all.subrange(
                    data_size(es.take(i)) as int,
                    (data_size(es.take(i)) + value_bytes(es[i].value).len()) as int,
                ) =~= values_bytes(d).subrange(
                    data_size(d.take(i)) as int,
                    (data_size(d.take(i)) + value_bytes(d[i].value).len()) as int,
                ));
            } else {
                assert(es.take(i) =~= d);
                assert(all.subrange(
                    data_size(es.take(i)) as int,
                    (data_size(es.take(i)) + value_bytes(es[i].value).len()) as int,
                ) =~= value_bytes(es[i].value));
            }
        }
    }
}

/// Entry `i` of the directory `es` written at `dir` sits in its slot, and a
/// value too long for the slot lies inside `s`, at the offset that the slot
/// holds.
pub open spec fn entry_placed(s: Seq<u8>, dir: int, es: Seq<EntryModel>, data_start: int, i: int) -> bool {
    let at = dir + 2 + 12 * i;
    let o = data_start + data_size(es.take(i));
    &&& s.subrange(at, at + 12) == entry_bytes(es[i], o as u32)
    &&& read_u16(s, at) == es[i].tag
    &&& (!is_inline(es[i].value) ==> {
        &&& read_u32(s, at + 8) == o
        &&& o + value_bytes(es[i].value).len() <= s.len()
        &&& s.subrange(o, o + value_bytes(es[i].value).len()) == value_bytes(es[i].value)
    })
}

/// The directory `es` is written at `dir`, with its data area at
/// `data_start`.
pub open spec fn directory_placed(s: Seq<u8>, dir: int, es: Seq<EntryModel>, data_start: int) -> bool {
    &&& dir + directory_len(es.len() as int) <= s.len()
    &&& read_u16(s, dir) == es.len()
    &&& forall|i: int| 0 <= i < es.len() ==> #[trigger] entry_placed(s, dir, es, data_start, i)
}

proof fn lemma_sub_concat(a: Seq<u8>, b: Seq<u8>, c: Seq<u8>, i: int, j: int)
    requires
        a.len() <= i <= j <= a.len() + b.len(),
    ensures
        (a + b + c).subrange(i, j) == b.subrange(i - a.len(), j - a.len()),
{
    assert((a + b + c).subrange(i, j) =~= b.subrange(i - a.len(), j - a.len()));
}

/// Places the directory `es`, written as `directory_bytes(es, ds)` between
/// `a` and `c`, with its data area `values_bytes(es)` inside `s`.
proof fn lemma_directory_placed(
    s: Seq<u8>,
    a: Seq<u8>,
    c: Seq<u8>,
    es: Seq<EntryModel>,
    ds: int,
)
    requires
        s == a + directory_bytes(es, ds) + c,
        es.len() <= 65535,
        0 <= ds,
        ds + data_size(es) <= u32::MAX,
        ds + data_size(es) <= s.len(),
        s.subrange(ds, ds + data_size(es)) == values_bytes(es),
    ensures
        directory_placed(s, a.len() as int, es, ds),
{
    let dir = a.len() as int;
    let eb = entries_bytes(es, ds);
    lemma_entries_bytes(es, ds);
    lemma_values_bytes(es);
    let db = directory_bytes(es, ds);
    assert(s =~= a + (le16(es.len() as u16) + eb + le32(0)) + c);
    lemma_le16(es.len() as u16);
    assert(s.subrange(dir, dir + 2) =~= le16(es.len() as u16));
    assert(read_u16(s, dir) == read_u16(le16(es.len() as u16), 0));
    assert forall|i: int| 0 <= i < es.len() implies #[trigger] entry_placed(s, dir, es, ds, i) by {
        let at = dir + 2 + 12 * i;
        let o = ds + data_size(es.take(i));
        lemma_data_size_prefix(es, i);
        let e = es[i];
        assert(s.subrange(at, at + 12) =~= eb.subrange(12 * i, 12 * i + 12));
        let ebi = entry_bytes(e, o as u32);
        assert(ebi.subrange(0, 2) =~= le16(e.tag));
        lemma_le16(e.tag);
        assert(s[at] == ebi[0] && s[at + 1] == ebi[1]);
        if !is_inline(e.value) {
            let vl = value_bytes(e.value).len();
            assert(ebi.subrange(8, 12) =~= le32(o as u32));
            lemma_le32(o as u32);
            assert(s[at + 8] == ebi[8] && s[at + 9] == ebi[9] && s[at + 10] == ebi[10] && s[at + 11]
                == ebi[11]);
            lemma_data_size_prefix(es, i + 1);
            assert(es.take(i + 1).drop_last() =~= es.take(i));
            assert(s.subrange(o, o + vl) =~= s.subrange(ds, ds + data_size(es)).subrange(
                o - ds,
                o - ds + vl,
            ));
        }
    }
}

/// Offset integrity of a laid-out TIFF structure: both directories sit where
/// the header and the link say, each entry in its slot, and each value too
/// long for its slot lies inside the segment at the offset the slot holds.
pub proof fn lemma_layout_offsets(ifd0: Seq<EntryModel>, gps: Seq<EntryModel>)
    requires
        layout_fits(ifd0, gps),
    ensures
        tiff_bytes(ifd0, gps).len() == tiff_len(ifd0, gps),
        read_u32(tiff_bytes(ifd0, gps), 4) == 8,
        directory_placed(tiff_bytes(ifd0, gps), 8, ifd0, ifd0_data_start(ifd0, gps)),
        gps.len() > 0 ==> directory_placed(
            tiff_bytes(ifd0, gps),
            gps_directory_start(ifd0),
            gps,
            gps_data_start(ifd0, gps),
        ),
{
    let s = tiff_bytes(ifd0, gps);
    let h = tiff_header();
    let d0 = directory_bytes(ifd0, ifd0_data_start(ifd0, gps));
    let gp = gps_part(ifd0, gps);
    let v0 = values_bytes(ifd0);
    lemma_entries_len(ifd0, ifd0_data_start(ifd0, gps));
    lemma_entries_len(gps, gps_data_start(ifd0, gps));
    lemma_values_len(ifd0);
    lemma_values_len(gps);
    assert(s.len() == tiff_len(ifd0, gps));
    let ds0 = ifd0_data_start(ifd0, gps);
    assert(s.subrange(ds0, ds0 + data_size(ifd0)) =~= v0);
    assert(s =~= h + d0 + (gp + v0));
    lemma_directory_placed(s, h, gp + v0, ifd0, ds0);
    if gps.len() > 0 {
        lemma_gps_placed(ifd0, gps);
    }
}

proof fn lemma_gps_placed(ifd0: Seq<EntryModel>, gps: Seq<EntryModel>)
    requires
        layout_fits(ifd0, gps),
        gps.len() > 0,
    ensures
        directory_placed(
            tiff_bytes(ifd0, gps),
            gps_directory_start(ifd0),
            gps,
            gps_data_start(ifd0, gps),
        ),
{
    let s = tiff_bytes(ifd0, gps);
    let h = tiff_header();
    let d0 = directory_bytes(ifd0, ifd0_data_start(ifd0, gps));
    let v0 = values_bytes(ifd0);
    let gds = gps_data_start(ifd0, gps);
    let dg = directory_bytes(gps, gds);
    let vg = values_bytes(gps);
    lemma_entries_len(ifd0, ifd0_data_start(ifd0, gps));
    lemma_entries_len(gps, gds);
    lemma_values_len(gps);
    assert(s =~= (h + d0) + dg + (vg + v0));
    assert(s.subrange(gds, gds + data_size(gps)) =~= vg);
    lemma_directory_placed(s, h + d0, vg + v0, gps, gds);
}

} // verus!
