//! Reading tensors out of a safetensors file.
//!
//! The file starts with the length of its header in eight bytes, the lowest first.
//! The header is a JSON object that gives each tensor a type, a shape and a range
//! of bytes. The bytes follow. Numbers in half precision and in brain floating
//! point are widened to single precision; a number is its bit pattern here.
use crate::half;
use crate::half::{bf16_to_f32, f16_to_f32};
use crate::json;
use crate::json::{json_items, json_members, json_numbers, json_string};
use crate::load;
use crate::pretokenize;
use crate::scalar::{from_bits, functional, Scalar};
use crate::tensor;
use crate::tensor::{volume, Tensor, TensorView};
use crate::text;
use crate::text::{decimal, list_text, text_from_utf8};
use byteorder::{ByteOrder, LittleEndian};
use vstd::hash_map::StringHashMap;
use vstd::prelude::*;
use vstd::slice::{slice_subrange, slice_to_vec};

verus! {

/// The number that bytes say, the lowest first.
pub open spec fn little_endian(bytes: Seq<u8>) -> int
    decreases bytes.len(),
{
    if bytes.len() == 0 {
        0
    } else {
        bytes[0] + 256 * little_endian(bytes.drop_first())
    }
}

/// `byteorder`'s `LittleEndian::read_u64` reads the first eight bytes, the lowest
/// first. It needs that many.
#[verifier::external_body]
fn read_u64(bytes: &[u8]) -> (r: u64)
    requires
        bytes@.len() >= 8,
    ensures
        r == little_endian(bytes@.take(8)),
{
    LittleEndian::read_u64(bytes)
}

/// `byteorder`'s `LittleEndian::read_u32` reads the first four bytes, the lowest
/// first. It needs that many.
#[verifier::external_body]
fn read_u32(bytes: &[u8]) -> (r: u32)
    requires
        bytes@.len() >= 4,
    ensures
        r == little_endian(bytes@.take(4)),
{
    LittleEndian::read_u32(bytes)
}

/// `byteorder`'s `LittleEndian::read_u16` reads the first two bytes, the lowest
/// first. It needs that many.
#[verifier::external_body]
fn read_u16(bytes: &[u8]) -> (r: u16)
    requires
        bytes@.len() >= 2,
    ensures
        r == little_endian(bytes@.take(2)),
{
    LittleEndian::read_u16(bytes)
}

/// How the elements of a tensor are stored.
#[derive(Clone, Copy, Debug, PartialEq, Eq, Structural)]
pub enum Dtype {
    F32,
    BF16,
    F16,
}

impl Dtype {
    /// The number of bytes of an element.
    pub open spec fn width(self) -> int {
        match self {
            Dtype::F32 => 4,
            Dtype::BF16 => 2,
            Dtype::F16 => 2,
        }
    }
}

/// The type that a header's name for it stands for, if it is supported.
pub open spec fn dtype_of(name: Seq<char>) -> Option<Dtype> {
    if name == "F32"@ {
        Some(Dtype::F32)
    } else if name == "BF16"@ {
        Some(Dtype::BF16)
    } else if name == "F16"@ {
        Some(Dtype::F16)
    } else {
        None
    }
}

/// Whether `raw` is an element that says the number with pattern `bits`.
pub open spec fn reads_as(dtype: Dtype, raw: Seq<u8>, bits: u32) -> bool {
    match dtype {
        Dtype::F32 => bits == little_endian(raw),
        Dtype::BF16 => bits == little_endian(raw) * 0x1_0000,
        Dtype::F16 => half::widens(little_endian(raw) as u16, bits),
    }
}

/// What a header says of a tensor.
#[verifier::ext_equal]
pub struct HeaderView {
    pub dtype: Seq<char>,
    pub shape: Seq<usize>,
    pub start: usize,
    pub end: usize,
}

/// What a header says of a tensor: its type, its shape and its range of bytes.
pub struct TensorHeader {
    pub dtype: String,
    pub shape: Vec<usize>,
    pub start: usize,
    pub end: usize,
}

impl View for TensorHeader {
    type V = HeaderView;

    open spec fn view(&self) -> HeaderView {
        HeaderView { dtype: self.dtype@, shape: self.shape@, start: self.start, end: self.end }
    }
}

/// The view of a header that may be absent.
pub open spec fn header_view(header: Option<TensorHeader>) -> Option<HeaderView> {
    match header {
        Some(h) => Some(h@),
        None => None,
    }
}

/// Numbers as sizes, if all of them are.
pub open spec fn sizes_of(numbers: Option<Seq<u64>>) -> Option<Seq<usize>> {
    match numbers {
        Some(list) => if forall|i: int| 0 <= i < list.len() ==> #[trigger] list[i] <= usize::MAX {
            Some(Seq::new(list.len(), |i: int| list[i] as usize))
        } else {
            None
        },
        None => None,
    }
}

/// A header made of its three parts: a type, a shape and a range of two offsets.
pub open spec fn header_from(
    dtype: Option<Seq<char>>,
    shape: Option<Seq<u64>>,
    offsets: Option<Seq<u64>>,
) -> Option<HeaderView> {
    match (dtype, sizes_of(shape), sizes_of(offsets)) {
        (Some(dtype), Some(shape), Some(o)) => if o.len() == 2 {
            Some(HeaderView { dtype, shape, start: o[0], end: o[1] })
        } else {
            None
        },
        _ => None,
    }
}

/// What a JSON text says of a tensor. It is an object with the three parts by name,
/// or an array of the three parts.
pub open spec fn header_of(text: Seq<char>) -> Option<HeaderView> {
    match json::json_members_of(text) {
        Some(m) => if m.contains_key("dtype"@) && m.contains_key("shape"@) && m.contains_key(
            "data_offsets"@,
        ) {
            header_from(
                json::json_string_of(m["dtype"@]),
                json::json_numbers_of(m["shape"@]),
                json::json_numbers_of(m["data_offsets"@]),
            )
        } else {
            None
        },
        None => match json::json_items_of(text) {
            Some(items) => if items.len() == 3 {
                header_from(
                    json::json_string_of(items[0]),
                    json::json_numbers_of(items[1]),
                    json::json_numbers_of(items[2]),
                )
            } else {
                None
            },
            None => None,
        },
    }
}

/// What is wrong with a file.
#[verifier::ext_equal]
pub enum Fault {
    /// The file ends inside its header.
    Truncated,
    /// The header is not UTF-8.
    NotUtf8,
    /// The header is not a JSON object.
    NotJson,
    /// The header does not say what it should of a tensor.
    BadHeader { name: Seq<char> },
    /// A tensor has a type that is not supported.
    UnsupportedDtype { name: Seq<char>, dtype: Seq<char> },
    /// A tensor has more bytes than can be counted.
    TooLarge { name: Seq<char>, shape: Seq<usize> },
    /// A range of bytes ends before it starts.
    InvalidRange { name: Seq<char>, start: usize, end: usize },
    /// A range has another length than the type and the shape say.
    SizeMismatch {
        name: Seq<char>,
        expected: usize,
        shape: Seq<usize>,
        dtype: Seq<char>,
        actual: usize,
    },
    /// A range extends beyond the file.
    BeyondFile { name: Seq<char>, end: usize },
}

/// Why a file could not be read.
#[derive(Debug)]
pub enum SafetensorsError {
    /// The file ends inside its header.
    Truncated,
    /// The header is not UTF-8.
    NotUtf8,
    /// The header is not a JSON object.
    NotJson,
    /// The header does not say what it should of a tensor.
    BadHeader { name: String },
    /// A tensor has a type that is not supported.
    UnsupportedDtype { name: String, dtype: String },
    /// A tensor has more bytes than can be counted.
    TooLarge { name: String, shape: Vec<usize> },
    /// A range of bytes ends before it starts.
    InvalidRange { name: String, start: usize, end: usize },
    /// A range has another length than the type and the shape say.
    SizeMismatch {
        name: String,
        expected: usize,
        shape: Vec<usize>,
        dtype: String,
        actual: usize,
    },
    /// A range extends beyond the file.
    BeyondFile { name: String, end: usize },
}

impl View for SafetensorsError {
    type V = Fault;

    open spec fn view(&self) -> Fault {
        match self {
            SafetensorsError::Truncated => Fault::Truncated,
            SafetensorsError::NotUtf8 => Fault::NotUtf8,
            SafetensorsError::NotJson => Fault::NotJson,
            SafetensorsError::BadHeader { name } => Fault::BadHeader { name: name@ },
            SafetensorsError::UnsupportedDtype { name, dtype } => Fault::UnsupportedDtype {
                name: name@,
                dtype: dtype@,
            },
            SafetensorsError::TooLarge { name, shape } => Fault::TooLarge {
                name: name@,
                shape: shape@,
            },
            SafetensorsError::InvalidRange { name, start, end } => Fault::InvalidRange {
                name: name@,
                start: *start,
                end: *end,
            },
            SafetensorsError::SizeMismatch { name, expected, shape, dtype, actual } =>
                Fault::SizeMismatch {
                name: name@,
                expected: *expected,
                shape: shape@,
                dtype: dtype@,
                actual: *actual,
            },
            SafetensorsError::BeyondFile { name, end } => Fault::BeyondFile {
                name: name@,
                end: *end,
            },
        }
    }
}

/// A fault in words.
pub open spec fn message_of(f: Fault) -> Seq<char> {
    match f {
        Fault::Truncated => "file ends inside its header"@,
        Fault::NotUtf8 => "header is not UTF-8"@,
        Fault::NotJson => "header is not a JSON object"@,
        Fault::BadHeader { name } => "Invalid header for tensor "@ + name,
        Fault::UnsupportedDtype { name, dtype } => "Unsupported dtype "@ + dtype + " for tensor "@
            + name + " -- only F32, BF16, and F16 are supported"@,
        Fault::TooLarge { name, shape } => "Too many bytes for tensor "@ + name + ": shape "@
            + text::bracketed(shape),
        Fault::InvalidRange { name, start, end } => "Invalid byte range for tensor "@ + name
            + ": "@ + text::decimal_of(start as nat) + " to "@ + text::decimal_of(end as nat),
        Fault::SizeMismatch { name, expected, shape, dtype, actual } =>
            "Data size mismatch for tensor "@ + name + ": expected "@ + text::decimal_of(
            expected as nat,
        ) + " bytes (shape "@ + text::bracketed(shape) + " with "@ + dtype + "), got "@
            + text::decimal_of(actual as nat) + " bytes from data_offsets"@,
        Fault::BeyondFile { name, end } => "Byte range for tensor "@ + name + " ends at "@
            + text::decimal_of(end as nat) + ", beyond the file"@,
    }
}

impl SafetensorsError {
    /// The error in words.
    pub fn message(&self) -> (r: String)
        ensures
            r@ == message_of(self@),
    {
        let mut r = String::new();
        match self {
            SafetensorsError::Truncated => {
                r.append("file ends inside its header");
                assert(r@ =~= message_of(self@));
            },
            SafetensorsError::NotUtf8 => {
                r.append("header is not UTF-8");
                assert(r@ =~= message_of(self@));
            },
            SafetensorsError::NotJson => {
                r.append("header is not a JSON object");
                assert(r@ =~= message_of(self@));
            },
            SafetensorsError::BadHeader { name } => {
                r.append("Invalid header for tensor ");
                r.append(name.as_str());
                assert(r@ =~= message_of(self@));
            },
            SafetensorsError::UnsupportedDtype { name, dtype } => {
                r.append("Unsupported dtype ");
                r.append(dtype.as_str());
                r.append(" for tensor ");
                r.append(name.as_str());
                r.append(" -- only F32, BF16, and F16 are supported");
                assert(r@ =~= message_of(self@));
            },
            SafetensorsError::TooLarge { name, shape } => {
                r.append("Too many bytes for tensor ");
                r.append(name.as_str());
                r.append(": shape ");
                r.append(list_text(shape.as_slice()).as_str());
                assert(r@ =~= message_of(self@));
            },
            SafetensorsError::InvalidRange { name, start, end } => {
                r.append("Invalid byte range for tensor ");
                r.append(name.as_str());
                r.append(": ");
                r.append(decimal(*start).as_str());
                r.append(" to ");
                r.append(decimal(*end).as_str());
                assert(r@ =~= message_of(self@));
            },
            SafetensorsError::SizeMismatch { name, expected, shape, dtype, actual } => {
                r.append("Data size mismatch for tensor ");
                r.append(name.as_str());
                r.append(": expected ");
                r.append(decimal(*expected).as_str());
                r.append(" bytes (shape ");
                r.append(list_text(shape.as_slice()).as_str());
                r.append(" with ");
                r.append(dtype.as_str());
                r.append("), got ");
                r.append(decimal(*actual).as_str());
                r.append(" bytes from data_offsets");
                assert(r@ =~= message_of(self@));
            },
            SafetensorsError::BeyondFile { name, end } => {
                r.append("Byte range for tensor ");
                r.append(name.as_str());
                r.append(" ends at ");
                r.append(decimal(*end).as_str());
                r.append(", beyond the file");
                assert(r@ =~= message_of(self@));
            },
        }
        r
    }
}

/// A tensor of a file. Its elements are single-precision patterns.
#[derive(Debug, Clone)]
pub struct SafeTensorEntry {
    pub name: String,
    pub shape: Vec<usize>,
    pub dtype: String,
    pub data: Vec<u32>,
}

/// What is wrong with a tensor, if anything is. `data_start` is the place in the file
/// that its range counts from.
pub open spec fn fault_of(
    name: Seq<char>,
    header: Option<HeaderView>,
    file_len: int,
    data_start: int,
) -> Option<Fault> {
    match header {
        None => Some(Fault::BadHeader { name }),
        Some(h) => match dtype_of(h.dtype) {
            None => Some(Fault::UnsupportedDtype { name, dtype: h.dtype }),
            Some(dtype) => {
                let expected = volume(h.shape) * dtype.width();
                if expected > usize::MAX {
                    Some(Fault::TooLarge { name, shape: h.shape })
                } else if h.end < h.start {
                    Some(Fault::InvalidRange { name, start: h.start, end: h.end })
                } else if h.end - h.start != expected {
                    Some(
                        Fault::SizeMismatch {
                            name,
                            expected: expected as usize,
                            shape: h.shape,
                            dtype: h.dtype,
                            actual: (h.end - h.start) as usize,
                        },
                    )
                } else if expected > 0 && data_start + h.end > file_len {
                    Some(Fault::BeyondFile { name, end: h.end })
                } else {
                    None
                }
            },
        },
    }
}

/// Whether an entry is the tensor that the header describes.
pub open spec fn entry_is(
    entry: SafeTensorEntry,
    name: Seq<char>,
    h: HeaderView,
    file: Seq<u8>,
    data_start: int,
) -> bool {
    let dtype = dtype_of(h.dtype)->0;
    let w = dtype.width();
    &&& entry.name@ == name
    &&& entry.shape@ == h.shape
    &&& entry.dtype@ == h.dtype
    &&& entry.data@.len() == volume(h.shape)
    &&& forall|i: int|
        0 <= i < entry.data@.len() ==> reads_as(
            dtype,
            file.subrange(data_start + h.start + i * w, data_start + h.start + i * w + w),
            #[trigger] entry.data@[i],
        )
}

fn supported(name: &String) -> (r: Option<Dtype>)
    ensures
        r == dtype_of(name@),
{
    if *name == "F32".to_owned() {
        Some(Dtype::F32)
    } else if *name == "BF16".to_owned() {
        Some(Dtype::BF16)
    } else if *name == "F16".to_owned() {
        Some(Dtype::F16)
    } else {
        None
    }
}

fn width_of(dtype: Dtype) -> (r: usize)
    ensures
        r == dtype.width(),
{
    match dtype {
        Dtype::F32 => 4,
        Dtype::BF16 => 2,
        Dtype::F16 => 2,
    }
}

proof fn lemma_little_endian_two(raw: Seq<u8>)
    requires
        raw.len() == 2,
    ensures
        0 <= little_endian(raw) <= 0xffff,
{
    reveal_with_fuel(little_endian, 3);
}

fn read_element(dtype: Dtype, raw: &[u8]) -> (bits: u32)
    requires
        raw@.len() == dtype.width(),
    ensures
        reads_as(dtype, raw@, bits),
{
    proof {
        assert(raw@.take(raw@.len() as int) =~= raw@);
        if raw@.len() == 2 {
            lemma_little_endian_two(raw@);
        }
    }
    match dtype {
        Dtype::F32 => read_u32(raw),
        Dtype::BF16 => bf16_to_f32(read_u16(raw)),
        Dtype::F16 => f16_to_f32(read_u16(raw)),
    }
}

/// The number of bytes of a tensor, if they can be counted.
fn byte_count(shape: &[usize], width: usize) -> (r: Option<usize>)
    requires
        width > 0,
    ensures
        match r {
            Some(n) => n == volume(shape@) * width,
            None => volume(shape@) * width > usize::MAX,
        },
{
    let n: usize = match checked_volume(shape) {
        Some(n) => n,
        None => {
            assert(volume(shape@) <= volume(shape@) * width) by (nonlinear_arith)
                requires
                    width >= 1,
            ;
            return None;
        },
    };
    n.checked_mul(width)
}

fn checked_volume(shape: &[usize]) -> (r: Option<usize>)
    ensures
        match r {
            Some(n) => n == volume(shape@),
            None => volume(shape@) > usize::MAX,
        },
{
    let mut d: usize = 0;
    while d < shape.len()
        invariant
            d <= shape@.len(),
            forall|k: int| 0 <= k < d ==> shape@[k] != 0,
        decreases shape@.len() - d,
    {
        if shape[d] == 0 {
            proof {
                tensor::lemma_volume_zero(shape@, d as int);
            }
            return Some(0);
        }
        d = d + 1;
    }
    let mut r: usize = 1;
    let mut k: usize = 0;
    while k < shape.len()
        invariant
            k <= shape@.len(),
            forall|i: int| 0 <= i < shape@.len() ==> shape@[i] != 0,
            r == volume(shape@.take(k as int)),
        decreases shape@.len() - k,
    {
        proof {
            assert(shape@.take(k + 1).drop_last() =~= shape@.take(k as int));
            tensor::lemma_volume_prefix(shape@, k + 1);
        }
        r = match r.checked_mul(shape[k]) {
            Some(r) => r,
            None => {
                return None;
            },
        };
        k = k + 1;
    }
    assert(shape@.take(k as int) =~= shape@);
    Some(r)
}

/// Reads the tensor that a header describes, if one does, out of a file.
pub fn read_entry(
    name: &str,
    header: Option<TensorHeader>,
    file: &[u8],
    data_start: usize,
) -> (r: Result<SafeTensorEntry, SafetensorsError>)
    requires
        data_start <= file@.len(),
    ensures
        match r {
            Ok(entry) => fault_of(
                name@,
                header_view(header),
                file@.len() as int,
                data_start as int,
            ) is None && entry_is(
                entry,
                name@,
                header_view(header)->0,
                file@,
                data_start as int,
            ),
            Err(e) => fault_of(
                name@,
                header_view(header),
                file@.len() as int,
                data_start as int,
            ) == Some(e@),
        },
{
    let header: TensorHeader = match header {
        Some(h) => h,
        None => return Err(SafetensorsError::BadHeader { name: name.to_owned() }),
    };
    let dtype: Dtype = match supported(&header.dtype) {
        Some(dtype) => dtype,
        None => {
            return Err(
                SafetensorsError::UnsupportedDtype { name: name.to_owned(), dtype: header.dtype },
            );
        },
    };
    let width: usize = width_of(dtype);
    let expected: usize = match byte_count(header.shape.as_slice(), width) {
        Some(n) => n,
        None => {
            return Err(SafetensorsError::TooLarge { name: name.to_owned(), shape: header.shape });
        },
    };
    if header.end < header.start {
        return Err(
            SafetensorsError::InvalidRange {
                name: name.to_owned(),
                start: header.start,
                end: header.end,
            },
        );
    }
    let actual: usize = header.end - header.start;
    if actual != expected {
        return Err(
            SafetensorsError::SizeMismatch {
                name: name.to_owned(),
                expected,
                shape: header.shape,
                dtype: header.dtype,
                actual,
            },
        );
    }
    if expected > 0 && header.end > file.len() - data_start {
        return Err(SafetensorsError::BeyondFile { name: name.to_owned(), end: header.end });
    }
    let file_len: usize = file.len();
    let ghost h = header@;
    let ghost n = volume(h.shape) as int;
    let mut data: Vec<u32> = Vec::new();
    let mut i: usize = 0;
    let mut done: usize = 0;
    assert(0 * width == 0);
    while done < expected
        invariant
            done == i * width,
            done <= expected,
            i <= n,
            expected == n * width,
            width == dtype.width(),
            width > 0,
            h == header@,
            header.end - header.start == expected,
            expected > 0 ==> data_start + header.end <= file@.len(),
            file@.len() == file_len,
            data@.len() == i,
            forall|k: int|
                0 <= k < i ==> reads_as(
                    dtype,
                    file@.subrange(
                        data_start + h.start + k * width,
                        data_start + h.start + k * width + width,
                    ),
                    #[trigger] data@[k],
                ),
        decreases expected - done,
    {
        proof {
            assert(i < n) by (nonlinear_arith)
                requires
                    i * width < n * width,
                    width > 0,
            ;
            assert((i + 1) * width == i * width + width) by (nonlinear_arith);
            assert((i + 1) * width <= n * width) by (nonlinear_arith)
                requires
                    i + 1 <= n,
                    width > 0,
            ;
            assert(i <= i * width) by (nonlinear_arith)
                requires
                    width > 0,
                    i >= 0,
            ;
        }
        let from: usize = data_start + header.start + done;
        let raw = slice_subrange(file, from, from + width);
        data.push(read_element(dtype, raw));
        done = done + width;
        i = i + 1;
    }
    proof {
        assert(i == n) by (nonlinear_arith)
            requires
                i * width == n * width,
                width > 0,
        ;
    }
    Ok(
        SafeTensorEntry {
            name: name.to_owned(),
            shape: header.shape,
            dtype: header.dtype,
            data,
        },
    )
}

/// The place in a file where the data starts, once its header is there in full.
pub open spec fn header_end(file: Seq<u8>) -> int {
    8 + little_endian(file.take(8))
}

/// The text of the header of a file, and the place where the data starts.
pub open spec fn framing(file: Seq<u8>) -> Result<Seq<char>, Fault> {
    if file.len() < 8 || header_end(file) > file.len() {
        Err(Fault::Truncated)
    } else {
        let raw = file.subrange(8, header_end(file));
        if vstd::utf8::valid_utf8(raw) {
            Ok(vstd::utf8::decode_utf8(raw))
        } else {
            Err(Fault::NotUtf8)
        }
    }
}

/// Cuts a file into the text of its header and the data, which starts at the place
/// returned.
pub fn split_file(file: &[u8]) -> (r: Result<(String, usize), SafetensorsError>)
    ensures
        match r {
            Ok(parts) => framing(file@) == Ok::<Seq<char>, Fault>(parts.0@) && parts.1
                == header_end(file@) && parts.1 <= file@.len(),
            Err(e) => framing(file@) == Err::<Seq<char>, Fault>(e@),
        },
{
    if file.len() < 8 {
        return Err(SafetensorsError::Truncated);
    }
    let size: u64 = read_u64(file);
    if size > (file.len() - 8) as u64 {
        return Err(SafetensorsError::Truncated);
    }
    let end: usize = 8 + size as usize;
    match text_from_utf8(slice_subrange(file, 8, end)) {
        Some(header) => Ok((header, end)),
        None => Err(SafetensorsError::NotUtf8),
    }
}

fn find_member(list: &Vec<(String, String)>, name: &str) -> (r: Option<usize>)
    ensures
        match r {
            Some(i) => i < list@.len() && list@[i as int].0@ == name@,
            None => forall|i: int| 0 <= i < list@.len() ==> (#[trigger] list@[i]).0@ != name@,
        },
{
    let wanted = name.to_owned();
    let mut i: usize = 0;
    while i < list.len()
        invariant
            i <= list@.len(),
            wanted@ == name@,
            forall|k: int| 0 <= k < i ==> (#[trigger] list@[k]).0@ != name@,
        decreases list@.len() - i,
    {
        if list[i].0 == wanted {
            return Some(i);
        }
        i = i + 1;
    }
    None
}

/// The view of a list of numbers that may be absent.
pub open spec fn numbers_view(numbers: Option<Vec<u64>>) -> Option<Seq<u64>> {
    match numbers {
        Some(list) => Some(list@),
        None => None,
    }
}

/// The view of a text that may be absent.
pub open spec fn text_view(text: Option<String>) -> Option<Seq<char>> {
    match text {
        Some(s) => Some(s@),
        None => None,
    }
}

fn to_sizes(numbers: Option<Vec<u64>>) -> (r: Option<Vec<usize>>)
    ensures
        match r {
            Some(sizes) => sizes_of(numbers_view(numbers)) == Some(sizes@),
            None => sizes_of(numbers_view(numbers)) is None,
        },
{
    let list = match numbers {
        Some(list) => list,
        None => return None,
    };
    let mut sizes: Vec<usize> = Vec::new();
    let mut i: usize = 0;
    while i < list.len()
        invariant
            i <= list@.len(),
            numbers_view(numbers) == Some(list@),
            sizes@.len() == i,
            forall|k: int|
                0 <= k < i ==> #[trigger] list@[k] <= usize::MAX && sizes@[k] == list@[k] as usize,
        decreases list@.len() - i,
    {
        if list[i] > usize::MAX as u64 {
            return None;
        }
        sizes.push(list[i] as usize);
        i = i + 1;
    }
    assert(sizes@ =~= Seq::new(list@.len(), |i: int| list@[i] as usize));
    Some(sizes)
}

/// Puts a header together from its three parts, if each of them is there.
pub fn assemble_header(
    dtype: Option<String>,
    shape: Option<Vec<u64>>,
    offsets: Option<Vec<u64>>,
) -> (r: Option<TensorHeader>)
    ensures
        header_view(r) == header_from(
            text_view(dtype),
            numbers_view(shape),
            numbers_view(offsets),
        ),
{
    match (dtype, to_sizes(shape), to_sizes(offsets)) {
        (Some(dtype), Some(shape), Some(o)) => {
            if o.len() == 2 {
                Some(TensorHeader { dtype, shape, start: o[0], end: o[1] })
            } else {
                None
            }
        },
        _ => None,
    }
}

fn read_parts(dtype: &String, shape: &String, offsets: &String) -> (r: Option<TensorHeader>)
    ensures
        header_view(r) == header_from(
            json::json_string_of(dtype@),
            json::json_numbers_of(shape@),
            json::json_numbers_of(offsets@),
        ),
{
    let dtype = match json_string(dtype.as_str()) {
        Ok(dtype) => Some(dtype),
        Err(_) => None,
    };
    let shape = match json_numbers(shape.as_str()) {
        Ok(shape) => Some(shape),
        Err(_) => None,
    };
    let offsets = match json_numbers(offsets.as_str()) {
        Ok(offsets) => Some(offsets),
        Err(_) => None,
    };
    assemble_header(dtype, shape, offsets)
}

/// Reads what a JSON text says of a tensor.
pub fn read_header(text: &str) -> (r: Option<TensorHeader>)
    ensures
        header_view(r) == header_of(text@),
{
    match json_members(text) {
        Ok(list) => {
            let ghost m = json::json_members_of(text@)->0;
            let found = (
                find_member(&list, "dtype"),
                find_member(&list, "shape"),
                find_member(&list, "data_offsets"),
            );
            match found {
                (Some(d), Some(s), Some(o)) => read_parts(
                    &list[d].1,
                    &list[s].1,
                    &list[o].1,
                ),
                _ => None,
            }
        },
        Err(_) => {
            match json_items(text) {
                Ok(items) => {
                    assert(text::texts(items@).len() == items@.len());
                    if items.len() == 3 {
                        read_parts(&items[0], &items[1], &items[2])
                    } else {
                        None
                    }
                },
                Err(_) => None,
            }
        },
    }
}

/// The tensors that a header names: every member but the metadata.
pub open spec fn tensor_names(members: Map<Seq<char>, Seq<char>>) -> Set<Seq<char>> {
    members.dom().remove("__metadata__"@)
}

/// What is wrong with the tensor `name` of a file, if anything is.
pub open spec fn tensor_fault(
    file: Seq<u8>,
    members: Map<Seq<char>, Seq<char>>,
    name: Seq<char>,
) -> Option<Fault> {
    fault_of(name, header_of(members[name]), file.len() as int, header_end(file))
}

/// Whether a file cannot be read because of `fault`: its header is at fault, or one of
/// its tensors is.
pub open spec fn file_fault(file: Seq<u8>, fault: Fault) -> bool {
    match framing(file) {
        Err(f) => fault == f,
        Ok(header) => match json::json_members_of(header) {
            None => fault == Fault::NotJson,
            Some(members) => exists|name: Seq<char>| #[trigger]
                tensor_names(members).contains(name) && tensor_fault(file, members, name) == Some(
                    fault,
                ),
        },
    }
}

/// Whether a file can be read: neither its header nor any of its tensors is at fault.
pub open spec fn readable(file: Seq<u8>) -> bool {
    &&& framing(file) is Ok
    &&& json::json_members_of(framing(file)->Ok_0) is Some
    &&& forall|name: Seq<char>| #[trigger]
        tensor_names(members_of(file)).contains(name) ==> tensor_fault(
            file,
            members_of(file),
            name,
        ) is None
}

/// The members of the header of a file.
pub open spec fn members_of(file: Seq<u8>) -> Map<Seq<char>, Seq<char>> {
    json::json_members_of(framing(file)->Ok_0)->0
}

/// Whether an entry is the tensor `name` of a file.
pub open spec fn is_tensor_of(entry: SafeTensorEntry, file: Seq<u8>, name: Seq<char>) -> bool {
    entry_is(entry, name, header_of(members_of(file)[name])->0, file, header_end(file))
}

/// Whether a list has every tensor of a file, and nothing else.
pub open spec fn lists_tensors(list: Seq<SafeTensorEntry>, file: Seq<u8>) -> bool {
    &&& forall|i: int|
        0 <= i < list.len() ==> tensor_names(members_of(file)).contains(
            (#[trigger] list[i]).name@,
        ) && is_tensor_of(list[i], file, list[i].name@)
    &&& forall|name: Seq<char>| #[trigger]
        tensor_names(members_of(file)).contains(name) ==> exists|i: int|
            0 <= i < list.len() && (#[trigger] list[i]).name@ == name
}

/// The name and the header of a member.
pub open spec fn named_view(h: (String, Option<TensorHeader>)) -> (Seq<char>, Option<HeaderView>) {
    (h.0@, header_view(h.1))
}

/// The headers of tensors among `headers`: all but the metadata.
pub open spec fn kept(headers: Seq<(String, Option<TensorHeader>)>) -> Seq<
    (Seq<char>, Option<HeaderView>),
>
    decreases headers.len(),
{
    if headers.len() == 0 {
        Seq::empty()
    } else if headers.last().0@ == "__metadata__"@ {
        kept(headers.drop_last())
    } else {
        kept(headers.drop_last()).push(named_view(headers.last()))
    }
}

/// The fault of the first header that has one.
pub open spec fn first_fault(
    headers: Seq<(Seq<char>, Option<HeaderView>)>,
    file_len: int,
    data_start: int,
) -> Option<Fault>
    decreases headers.len(),
{
    if headers.len() == 0 {
        None
    } else {
        match first_fault(headers.drop_last(), file_len, data_start) {
            Some(f) => Some(f),
            None => fault_of(headers.last().0, headers.last().1, file_len, data_start),
        }
    }
}

proof fn lemma_kept_push(
    headers: Seq<(String, Option<TensorHeader>)>,
    h: (String, Option<TensorHeader>),
)
    ensures
        kept(headers.push(h)) == (if h.0@ == "__metadata__"@ {
            kept(headers)
        } else {
            kept(headers).push(named_view(h))
        }),
{
    assert(headers.push(h).drop_last() =~= headers);
}

proof fn lemma_first_fault_push(
    headers: Seq<(Seq<char>, Option<HeaderView>)>,
    h: (Seq<char>, Option<HeaderView>),
    file_len: int,
    data_start: int,
)
    ensures
        first_fault(headers.push(h), file_len, data_start) == (match first_fault(
            headers,
            file_len,
            data_start,
        ) {
            Some(f) => Some(f),
            None => fault_of(h.0, h.1, file_len, data_start),
        }),
{
    assert(headers.push(h).drop_last() =~= headers);
}

/// A fault that stands first stays first, whatever headers come after it.
proof fn lemma_first_fault_stays(
    headers: Seq<(String, Option<TensorHeader>)>,
    i: int,
    file_len: int,
    data_start: int,
)
    requires
        0 <= i <= headers.len(),
        first_fault(kept(headers.take(i)), file_len, data_start) is Some,
    ensures
        first_fault(kept(headers), file_len, data_start) == first_fault(
            kept(headers.take(i)),
            file_len,
            data_start,
        ),
    decreases headers.len() - i,
{
    if i < headers.len() {
        assert(headers.take(i + 1) =~= headers.take(i).push(headers[i]));
        lemma_kept_push(headers.take(i), headers[i]);
        if headers[i].0@ != "__metadata__"@ {
            lemma_first_fault_push(
                kept(headers.take(i)),
                named_view(headers[i]),
                file_len,
                data_start,
            );
        }
        lemma_first_fault_stays(headers, i + 1, file_len, data_start);
    } else {
        assert(headers.take(i) =~= headers);
    }
}

/// Every header but the metadata is kept.
proof fn lemma_kept_has(headers: Seq<(String, Option<TensorHeader>)>, k: int)
    requires
        0 <= k < headers.len(),
        headers[k].0@ != "__metadata__"@,
    ensures
        kept(headers).contains(named_view(headers[k])),
    decreases headers.len(),
{
    let before = headers.drop_last();
    if k == before.len() {
        let last = kept(headers).len() - 1;
        assert(kept(headers)[last] == named_view(headers[k]));
    } else {
        lemma_kept_has(before, k);
        let i = choose|i: int|
            0 <= i < kept(before).len() && kept(before)[i] == named_view(before[k]);
        assert(kept(headers)[i] == named_view(headers[k]));
    }
}

/// Every header that is kept was there, and is not the metadata.
proof fn lemma_kept_from(headers: Seq<(String, Option<TensorHeader>)>, i: int) -> (k: int)
    requires
        0 <= i < kept(headers).len(),
    ensures
        0 <= k < headers.len(),
        named_view(headers[k]) == kept(headers)[i],
        headers[k].0@ != "__metadata__"@,
    decreases headers.len(),
{
    let before = headers.drop_last();
    if headers.last().0@ != "__metadata__"@ && i == kept(before).len() {
        headers.len() - 1
    } else {
        lemma_kept_from(before, i)
    }
}

/// The first fault is the fault of some header, and where there is none, no header
/// has one.
proof fn lemma_first_fault(
    headers: Seq<(Seq<char>, Option<HeaderView>)>,
    file_len: int,
    data_start: int,
)
    ensures
        first_fault(headers, file_len, data_start) is None ==> forall|i: int|
            0 <= i < headers.len() ==> fault_of(
                (#[trigger] headers[i]).0,
                headers[i].1,
                file_len,
                data_start,
            ) is None,
        first_fault(headers, file_len, data_start) matches Some(f) ==> exists|i: int|
            0 <= i < headers.len() && fault_of(
                (#[trigger] headers[i]).0,
                headers[i].1,
                file_len,
                data_start,
            ) == Some(f),
    decreases headers.len(),
{
    if headers.len() > 0 {
        let before = headers.drop_last();
        lemma_first_fault(before, file_len, data_start);
        match first_fault(before, file_len, data_start) {
            Some(f) => {
                let i = choose|i: int|
                    0 <= i < before.len() && fault_of(
                        (#[trigger] before[i]).0,
                        before[i].1,
                        file_len,
                        data_start,
                    ) == Some(f);
                assert(headers[i] == before[i]);
            },
            None => {
                let last = headers.len() - 1;
                assert(headers[last] == headers.last());
                assert forall|i: int| 0 <= i < headers.len() && first_fault(
                    headers,
                    file_len,
                    data_start,
                ) is None implies fault_of(
                    (#[trigger] headers[i]).0,
                    headers[i].1,
                    file_len,
                    data_start,
                ) is None by {
                    if i < last {
                        assert(before[i] == headers[i]);
                    }
                }
            },
        }
    }
}

/// Reads the tensors that headers describe out of a file, one after the other, up to
/// the first that is at fault. The member `__metadata__` describes none.
pub fn read_tensors(
    headers: &[(String, Option<TensorHeader>)],
    file: &[u8],
    data_start: usize,
) -> (r: Result<Vec<SafeTensorEntry>, SafetensorsError>)
    requires
        data_start <= file@.len(),
    ensures
        match r {
            Ok(list) => {
                &&& first_fault(kept(headers@), file@.len() as int, data_start as int) is None
                &&& list@.len() == kept(headers@).len()
                &&& forall|i: int|
                    0 <= i < list@.len() ==> entry_is(
                        #[trigger] list@[i],
                        kept(headers@)[i].0,
                        kept(headers@)[i].1->0,
                        file@,
                        data_start as int,
                    )
            },
            Err(e) => first_fault(kept(headers@), file@.len() as int, data_start as int) == Some(
                e@,
            ),
        },
{
    let metadata = "__metadata__".to_owned();
    let mut list: Vec<SafeTensorEntry> = Vec::new();
    let mut i: usize = 0;
    let ghost (n, start) = (file@.len() as int, data_start as int);
    assert(headers@.take(0) =~= Seq::empty());
    while i < headers.len()
        invariant
            i <= headers@.len(),
            n == file@.len(),
            start == data_start,
            data_start <= file@.len(),
            metadata@ == "__metadata__"@,
            first_fault(kept(headers@.take(i as int)), n, start) is None,
            list@.len() == kept(headers@.take(i as int)).len(),
            forall|k: int|
                0 <= k < list@.len() ==> entry_is(
                    #[trigger] list@[k],
                    kept(headers@.take(i as int))[k].0,
                    kept(headers@.take(i as int))[k].1->0,
                    file@,
                    start,
                ),
        decreases headers@.len() - i,
    {
        let ghost before = headers@.take(i as int);
        proof {
            assert(headers@.take(i + 1) =~= before.push(headers@[i as int]));
            lemma_kept_push(before, headers@[i as int]);
            lemma_first_fault_push(kept(before), named_view(headers@[i as int]), n, start);
        }
        if headers[i].0 != metadata {
            match read_entry(
                headers[i].0.as_str(),
                copy_header(&headers[i].1),
                file,
                data_start,
            ) {
                Ok(entry) => {
                    list.push(entry);
                },
                Err(e) => {
                    proof {
                        lemma_first_fault_stays(headers@, i + 1, n, start);
                    }
                    return Err(e);
                },
            }
        }
        i = i + 1;
    }
    assert(headers@.take(i as int) =~= headers@);
    Ok(list)
}

fn copy_header(header: &Option<TensorHeader>) -> (r: Option<TensorHeader>)
    ensures
        header_view(r) == header_view(*header),
{
    match header {
        Some(h) => Some(
            TensorHeader {
                dtype: h.dtype.clone(),
                shape: slice_to_vec(h.shape.as_slice()),
                start: h.start,
                end: h.end,
            },
        ),
        None => None,
    }
}

/// Reads every tensor of a file, in some order.
fn read_entries(file: &[u8]) -> (r: Result<Vec<SafeTensorEntry>, SafetensorsError>)
    ensures
        match r {
            Ok(list) => readable(file@) && lists_tensors(list@, file@),
            Err(e) => file_fault(file@, e@),
        },
{
    let (header, data_start) = match split_file(file) {
        Ok(parts) => parts,
        Err(e) => return Err(e),
    };
    let members = match json_members(header.as_str()) {
        Ok(members) => members,
        Err(_) => return Err(SafetensorsError::NotJson),
    };
    let ghost map = members_of(file@);
    let mut headers: Vec<(String, Option<TensorHeader>)> = Vec::new();
    let mut i: usize = 0;
    while i < members.len()
        invariant
            i <= members@.len(),
            headers@.len() == i,
            forall|k: int|
                0 <= k < i ==> named_view(#[trigger] headers@[k]) == (
                    members@[k].0@,
                    header_of(members@[k].1@),
                ),
        decreases members@.len() - i,
    {
        headers.push((members[i].0.clone(), read_header(members[i].1.as_str())));
        i = i + 1;
    }
    let ghost all = headers@;
    let ghost (n, start) = (file@.len() as int, data_start as int);
    let r = read_tensors(headers.as_slice(), file, data_start);
    let ghost outcome = r;
    proof {
        lemma_first_fault(kept(all), n, start);
        assert forall|k: int| 0 <= k < kept(all).len() implies tensor_names(map).contains(
            (#[trigger] kept(all)[k]).0,
        ) && kept(all)[k].1 == header_of(map[kept(all)[k].0]) by {
            let m = lemma_kept_from(all, k);
            assert(named_view(all[m]) == kept(all)[k]);
            assert(map.contains_key(members@[m].0@));
        }
        match outcome {
            Ok(list) => {
                assert forall|name: Seq<char>| #[trigger]
                    tensor_names(members_of(file@)).contains(name) implies exists|j: int|
                    0 <= j < list@.len() && (#[trigger] list@[j]).name@ == name && kept(all)[j].0
                        == name by {
                    let m = choose|m: int|
                        0 <= m < members@.len() && (#[trigger] members@[m]).0@ == name;
                    assert(named_view(all[m]).0 == name);
                    lemma_kept_has(all, m);
                    let j = choose|j: int|
                        0 <= j < kept(all).len() && kept(all)[j] == named_view(all[m]);
                    assert(entry_is(
                        list@[j],
                        kept(all)[j].0,
                        kept(all)[j].1->0,
                        file@,
                        start,
                    ));
                    assert(list@[j].name@ == name);
                }
                assert forall|name: Seq<char>| #[trigger]
                    tensor_names(members_of(file@)).contains(name) implies tensor_fault(
                    file@,
                    members_of(file@),
                    name,
                ) is None by {
                    let j = choose|j: int|
                        0 <= j < list@.len() && (#[trigger] list@[j]).name@ == name
                            && kept(all)[j].0 == name;
                    assert(fault_of(kept(all)[j].0, kept(all)[j].1, n, start) is None);
                }
                assert forall|j: int| 0 <= j < list@.len() implies tensor_names(
                    members_of(file@),
                ).contains((#[trigger] list@[j]).name@) && is_tensor_of(
                    list@[j],
                    file@,
                    list@[j].name@,
                ) by {
                    assert(kept(all)[j].0 == list@[j].name@);
                }
            },
            Err(e) => {
                let j = choose|j: int|
                    0 <= j < kept(all).len() && fault_of(
                        (#[trigger] kept(all)[j]).0,
                        kept(all)[j].1,
                        n,
                        start,
                    ) == Some(e@);
                let name = kept(all)[j].0;
                assert(tensor_names(map).contains(name));
                assert(tensor_fault(file@, map, name) == Some(e@));
            },
        }
    }
    r
}

/// Reads every tensor of a file, by name.
pub fn read_safetensors(file: &[u8]) -> (r: Result<
    StringHashMap<SafeTensorEntry>,
    SafetensorsError,
>)
    ensures
        match r {
            Ok(entries) => {
                &&& readable(file@)
                &&& entries@.dom() == tensor_names(members_of(file@))
                &&& forall|name: Seq<char>| #[trigger]
                    entries@.contains_key(name) ==> is_tensor_of(entries@[name], file@, name)
            },
            Err(e) => file_fault(file@, e@),
        },
{
    let mut list = match read_entries(file) {
        Ok(list) => list,
        Err(e) => return Err(e),
    };
    let ghost all = list@;
    let ghost names = tensor_names(members_of(file@));
    let mut entries: StringHashMap<SafeTensorEntry> = StringHashMap::new();
    while list.len() > 0
        invariant
            readable(file@),
            names == tensor_names(members_of(file@)),
            list@.len() <= all.len(),
            list@ == all.take(list@.len() as int),
            forall|i: int|
                0 <= i < all.len() ==> names.contains((#[trigger] all[i]).name@) && is_tensor_of(
                    all[i],
                    file@,
                    all[i].name@,
                ),
            forall|name: Seq<char>| #[trigger]
                entries@.contains_key(name) ==> names.contains(name) && is_tensor_of(
                    entries@[name],
                    file@,
                    name,
                ),
            forall|i: int|
                list@.len() <= i < all.len() ==> entries@.contains_key((#[trigger] all[i]).name@),
        decreases list@.len(),
    {
        let ghost last = list@.len() - 1;
        match list.pop() {
            Some(entry) => {
                assert(entry == all[last]);
                let name = entry.name.clone();
                entries.insert(name, entry);
                assert(list@ =~= all.take(list@.len() as int));
            },
            None => {},
        }
    }
    proof {
        assert forall|name: Seq<char>| names.contains(name) implies entries@.dom().contains(
            name,
        ) by {
            let i = choose|i: int| 0 <= i < all.len() && (#[trigger] all[i]).name@ == name;
            assert(entries@.contains_key(all[i].name@));
        }
        assert forall|name: Seq<char>| entries@.dom().contains(name) implies names.contains(
            name,
        ) by {
            assert(entries@.contains_key(name));
        }
        assert(entries@.dom() =~= names);
    }
    Ok(entries)
}

/// The elements that patterns stand for.
pub open spec fn elements<T: Scalar>(bits: Seq<u32>) -> Seq<T> {
    Seq::new(bits.len(), |i: int| from_bits::<T>(bits[i]))
}

/// Whether a tensor is the tensor `name` of a file.
pub open spec fn holds_tensor_of<T: Scalar>(
    t: TensorView<T>,
    file: Seq<u8>,
    name: Seq<char>,
) -> bool {
    exists|entry: SafeTensorEntry|
        #![trigger is_tensor_of(entry, file, name)]
        is_tensor_of(entry, file, name) && t.shape == entry.shape@ && (functional::<T>() ==> t.data
            == elements::<T>(entry.data@))
}

fn elements_of<T: Scalar>(bits: &Vec<u32>) -> (r: Vec<T>)
    ensures
        r@.len() == bits@.len(),
        functional::<T>() ==> r@ == elements::<T>(bits@),
{
    let mut r: Vec<T> = Vec::with_capacity(bits.len());
    let mut i: usize = 0;
    while i < bits.len()
        invariant
            i <= bits@.len(),
            r@.len() == i,
            functional::<T>() ==> forall|k: int|
                0 <= k < i ==> #[trigger] r@[k] == from_bits::<T>(bits@[k]),
        decreases bits@.len() - i,
    {
        r.push(from_bits(bits[i]));
        i = i + 1;
    }
    assert(functional::<T>() ==> r@ =~= elements::<T>(bits@));
    r
}

/// Whether a file has a tensor of the given name.
pub open spec fn has_tensor(file: Seq<u8>, name: Seq<char>) -> bool {
    tensor_names(members_of(file)).contains(name)
}

/// Reads every tensor of a file and adds it to `tensors`, in place of one of the same
/// name. Nothing is added where the file cannot be read.
fn add_tensors<T: Scalar>(tensors: &mut StringHashMap<Tensor<T>>, file: &[u8]) -> (r: Result<
    (),
    SafetensorsError,
>)
    ensures
        match r {
            Ok(_) => {
                &&& readable(file@)
                &&& forall|name: Seq<char>| #[trigger]
                    final(tensors)@.contains_key(name) <==> old(tensors)@.contains_key(name)
                        || has_tensor(file@, name)
                &&& forall|name: Seq<char>| #[trigger]
                    final(tensors)@.contains_key(name) ==> if has_tensor(file@, name) {
                        final(tensors)@[name]@.wf() && holds_tensor_of(
                            final(tensors)@[name]@,
                            file@,
                            name,
                        )
                    } else {
                        final(tensors)@[name] == old(tensors)@[name]
                    }
            },
            Err(e) => file_fault(file@, e@) && final(tensors)@ == old(tensors)@,
        },
{
    let mut list = match read_entries(file) {
        Ok(list) => list,
        Err(e) => return Err(e),
    };
    let ghost all = list@;
    let ghost names = tensor_names(members_of(file@));
    let ghost before = tensors@;
    while list.len() > 0
        invariant
            readable(file@),
            names == tensor_names(members_of(file@)),
            list@.len() <= all.len(),
            list@ == all.take(list@.len() as int),
            forall|i: int|
                0 <= i < all.len() ==> names.contains((#[trigger] all[i]).name@) && is_tensor_of(
                    all[i],
                    file@,
                    all[i].name@,
                ),
            forall|name: Seq<char>| #[trigger]
                tensors@.contains_key(name) ==> (before.contains_key(name) && tensors@[name]
                    == before[name]) || (names.contains(name) && tensors@[name]@.wf()
                    && holds_tensor_of(tensors@[name]@, file@, name)),
            forall|name: Seq<char>| #[trigger]
                before.contains_key(name) ==> tensors@.contains_key(name),
            forall|i: int|
                list@.len() <= i < all.len() ==> tensors@.contains_key((#[trigger] all[i]).name@)
                    && tensors@[all[i].name@]@.wf() && holds_tensor_of(
                    tensors@[all[i].name@]@,
                    file@,
                    all[i].name@,
                ),
        decreases list@.len(),
    {
        let ghost last = list@.len() - 1;
        match list.pop() {
            Some(entry) => {
                assert(entry == all[last]);
                let data: Vec<T> = elements_of(&entry.data);
                let shape = slice_to_vec(entry.shape.as_slice());
                let t = Tensor::new(shape, data);
                assert(is_tensor_of(entry, file@, entry.name@));
                tensors.insert(entry.name, t);
                assert(list@ =~= all.take(list@.len() as int));
            },
            None => {},
        }
    }
    proof {
        assert forall|name: Seq<char>| has_tensor(file@, name) implies tensors@.contains_key(name)
            && tensors@[name]@.wf() && holds_tensor_of(tensors@[name]@, file@, name) by {
            let i = choose|i: int| 0 <= i < all.len() && (#[trigger] all[i]).name@ == name;
            assert(tensors@.contains_key(all[i].name@));
        }
    }
    Ok(())
}

/// Reads every tensor of a file, by name, as tensors to compute with.
pub fn read_safetensors_as_tensors<T: Scalar>(file: &[u8]) -> (r: Result<
    StringHashMap<Tensor<T>>,
    SafetensorsError,
>)
    ensures
        match r {
            Ok(tensors) => {
                &&& readable(file@)
                &&& tensors@.dom() == tensor_names(members_of(file@))
                &&& load::all_wf(load::weights_of(tensors@))
                &&& forall|name: Seq<char>| #[trigger]
                    tensors@.contains_key(name) ==> holds_tensor_of(tensors@[name]@, file@, name)
            },
            Err(e) => file_fault(file@, e@),
        },
{
    let mut tensors: StringHashMap<Tensor<T>> = StringHashMap::new();
    match add_tensors(&mut tensors, file) {
        Ok(_) => {},
        Err(e) => return Err(e),
    }
    proof {
        let names = tensor_names(members_of(file@));
        assert forall|name: Seq<char>| #[trigger] tensors@.dom().contains(name) <==> names.contains(
            name,
        ) by {
            assert(tensors@.contains_key(name) <==> has_tensor(file@, name));
        }
        assert(tensors@.dom() =~= names);
    }
    Ok(tensors)
}

/// Whether `name` is the name of a file that holds a part of the weights: it starts
/// with `model-` and ends with `.safetensors`.
pub fn is_weight_shard(name: &str) -> (r: bool)
    ensures
        r == ("model-"@.is_prefix_of(name@) && ".safetensors"@.is_suffix_of(name@)),
{
    let chars = text::chars_of(name);
    let front = text::chars_of("model-");
    let back = text::chars_of(".safetensors");
    let n: usize = chars.len();
    proof {
        reveal_strlit("model-");
        reveal_strlit(".safetensors");
    }
    if n < back.len() || n < front.len() {
        return false;
    }
    pretokenize::token_stands_at(chars.as_slice(), 0, front.as_slice())
        && pretokenize::token_stands_at(chars.as_slice(), n - back.len(), back.as_slice())
}

/// Whether the tensors are those of the first `n` files: of every name that one of
/// them has, the tensor of the last file that has it.
pub open spec fn hold_tensors_of<T: Scalar>(
    tensors: Map<Seq<char>, Tensor<T>>,
    files: Seq<Vec<u8>>,
    n: int,
) -> bool {
    &&& forall|i: int| 0 <= i < n ==> readable((#[trigger] files[i])@)
    &&& forall|i: int, name: Seq<char>|
        0 <= i < n && #[trigger] has_tensor(files[i]@, name) ==> tensors.contains_key(name)
    &&& forall|name: Seq<char>| #[trigger]
        tensors.contains_key(name) ==> tensors[name]@.wf() && exists|i: int|
            0 <= i < n && #[trigger] has_tensor(files[i]@, name) && holds_tensor_of(
                tensors[name]@,
                files[i]@,
                name,
            ) && forall|j: int| i < j < n ==> !#[trigger] has_tensor(files[j]@, name)
}

/// Reads every tensor of a model whose weights are in several files, by name.
pub fn read_shards_as_tensors<T: Scalar>(files: &Vec<Vec<u8>>) -> (r: Result<
    StringHashMap<Tensor<T>>,
    SafetensorsError,
>)
    ensures
        match r {
            Ok(tensors) => {
                &&& hold_tensors_of(tensors@, files@, files@.len() as int)
                &&& load::all_wf(load::weights_of(tensors@))
            },
            Err(e) => exists|i: int|
                0 <= i < files@.len() && file_fault((#[trigger] files@[i])@, e@) && forall|j: int|
                    0 <= j < i ==> readable((#[trigger] files@[j])@),
        },
{
    let mut tensors: StringHashMap<Tensor<T>> = StringHashMap::new();
    let mut n: usize = 0;
    while n < files.len()
        invariant
            n <= files@.len(),
            hold_tensors_of(tensors@, files@, n as int),
        decreases files@.len() - n,
    {
        let ghost before = tensors@;
        match add_tensors(&mut tensors, files[n].as_slice()) {
            Ok(_) => {},
            Err(e) => {
                assert(file_fault(files@[n as int]@, e@));
                return Err(e);
            },
        }
        proof {
            let file = files@[n as int]@;
            assert forall|name: Seq<char>| #[trigger] tensors@.contains_key(name) implies tensors@[
                name]@.wf() && exists|i: int|
                0 <= i < n + 1 && #[trigger] has_tensor(files@[i]@, name) && holds_tensor_of(
                    tensors@[name]@,
                    files@[i]@,
                    name,
                ) && forall|j: int| i < j < n + 1 ==> !#[trigger] has_tensor(files@[j]@, name) by {
                if has_tensor(file, name) {
                    assert(has_tensor(files@[n as int]@, name));
                } else {
                    assert(before.contains_key(name));
                    let i = choose|i: int|
                        0 <= i < n && #[trigger] has_tensor(files@[i]@, name) && holds_tensor_of(
                            before[name]@,
                            files@[i]@,
                            name,
                        ) && forall|j: int| i < j < n ==> !#[trigger] has_tensor(files@[j]@, name);
                    assert(has_tensor(files@[i]@, name));
                }
            }
            assert forall|i: int, name: Seq<char>|
                0 <= i < n + 1 && #[trigger] has_tensor(
                    files@[i]@,
                    name,
                ) implies tensors@.contains_key(name) by {
                if i < n {
                    assert(before.contains_key(name));
                }
            }
        }
        n = n + 1;
    }
    Ok(tensors)
}

/// A file that cannot be read is not readable, and one that is not readable cannot be
/// read: which of the two holds is a matter of the file alone.
pub proof fn unreadable_files_have_a_fault(file: Seq<u8>)
    ensures
        readable(file) <==> !(exists|fault: Fault| #[trigger] file_fault(file, fault)),
{
    if readable(file) {
        if exists|fault: Fault| #[trigger] file_fault(file, fault) {
            let fault = choose|fault: Fault| #[trigger] file_fault(file, fault);
            let name = choose|name: Seq<char>| #[trigger]
                tensor_names(members_of(file)).contains(name) && tensor_fault(
                    file,
                    members_of(file),
                    name,
                ) == Some(fault);
            assert(tensor_fault(file, members_of(file), name) is None);
        }
    } else {
        match framing(file) {
            Err(f) => {
                assert(file_fault(file, f));
            },
            Ok(header) => {
                if json::json_members_of(header) is None {
                    assert(file_fault(file, Fault::NotJson));
                } else {
                    let name = choose|name: Seq<char>|
                        !(#[trigger] tensor_names(members_of(file)).contains(name) ==> tensor_fault(
                            file,
                            members_of(file),
                            name,
                        ) is None);
                    let fault = tensor_fault(file, members_of(file), name)->0;
                    assert(tensor_names(members_of(file)).contains(name));
                    assert(file_fault(file, fault));
                }
            },
        }
    }
}

/// A file is read as it is written: eight bytes with the size of the header, the header,
/// and the data after it.
pub proof fn file_reads_as_written(size: Seq<u8>, raw: Seq<u8>, data: Seq<u8>)
    requires
        size.len() == 8,
        little_endian(size) == raw.len(),
    ensures
        header_end(size + raw + data) == 8 + raw.len(),
        vstd::utf8::valid_utf8(raw) ==> framing(size + raw + data) == Ok::<Seq<char>, Fault>(
            vstd::utf8::decode_utf8(raw),
        ),
        !vstd::utf8::valid_utf8(raw) ==> framing(size + raw + data) == Err::<Seq<char>, Fault>(
            Fault::NotUtf8,
        ),
{
    let file = size + raw + data;
    assert(file.take(8) =~= size);
    assert(file.subrange(8, 8 + raw.len() as int) =~= raw);
}

/// A file that ends inside its header is cut off.
pub proof fn short_files_are_cut_off(size: Seq<u8>, rest: Seq<u8>)
    requires
        size.len() < 8 && rest.len() == 0 || size.len() == 8 && little_endian(size) > rest.len(),
    ensures
        framing(size + rest) == Err::<Seq<char>, Fault>(Fault::Truncated),
{
    if size.len() == 8 {
        assert((size + rest).take(8) =~= size);
    }
}

/// Elements come from the data: those of a tensor stand one after the other from the start
/// of its range on, each four bytes wide, or two for the narrow types, and are the numbers
/// that these say.
pub proof fn elements_come_from_the_data(
    entry: SafeTensorEntry,
    name: Seq<char>,
    h: HeaderView,
    front: Seq<u8>,
    data: Seq<u8>,
    i: int,
)
    requires
        entry_is(entry, name, h, front + data, front.len() as int),
        0 <= i < volume(h.shape),
    ensures
        entry.shape@ == h.shape,
        entry.data@.len() == volume(h.shape),
        h.dtype == "F32"@ && h.start + 4 * volume(h.shape) <= data.len() ==> entry.data@[i]
            == little_endian(data.subrange(h.start + 4 * i, h.start + 4 * i + 4)),
        h.dtype == "BF16"@ && h.start + 2 * volume(h.shape) <= data.len() ==> entry.data@[i]
            == little_endian(data.subrange(h.start + 2 * i, h.start + 2 * i + 2)) * 0x1_0000,
        h.dtype == "F16"@ && h.start + 2 * volume(h.shape) <= data.len() ==> half::widens(
            little_endian(data.subrange(h.start + 2 * i, h.start + 2 * i + 2)) as u16,
            entry.data@[i],
        ),
{
    reveal_strlit("F32");
    reveal_strlit("BF16");
    reveal_strlit("F16");
    let (file, at) = (front + data, front.len() as int);
    let dtype = dtype_of(h.dtype)->0;
    let w = dtype.width();
    assert("F32"@.len() == 3 && "BF16"@.len() == 4 && "F16"@.len() == 3);
    assert("F32"@[1] != "F16"@[1]);
    assert(reads_as(
        dtype,
        file.subrange(at + h.start + i * w, at + h.start + i * w + w),
        entry.data@[i],
    ));
    if h.dtype == "F32"@ && h.start + 4 * volume(h.shape) <= data.len() {
        assert(file.subrange(at + h.start + i * 4, at + h.start + i * 4 + 4) =~= data.subrange(
            h.start + 4 * i,
            h.start + 4 * i + 4,
        ));
    }
    if (h.dtype == "BF16"@ || h.dtype == "F16"@) && h.start + 2 * volume(h.shape) <= data.len() {
        assert(file.subrange(at + h.start + i * 2, at + h.start + i * 2 + 2) =~= data.subrange(
            h.start + 2 * i,
            h.start + 2 * i + 2,
        ));
    }
}

/// A tensor is sound where its type is one of the three, its range has as many bytes as its
/// shape needs, four for each element or two, and lies inside the file, and only there.
pub proof fn sound_tensors_have_no_fault(
    name: Seq<char>,
    header: Option<HeaderView>,
    file_len: int,
    data_start: int,
)
    ensures
        fault_of(name, header, file_len, data_start) is None <==> (header matches Some(h) && {
            let w: int = if h.dtype == "F32"@ {
                4
            } else {
                2
            };
            &&& h.dtype == "F32"@ || h.dtype == "BF16"@ || h.dtype == "F16"@
            &&& h.start <= h.end
            &&& h.end - h.start == volume(h.shape) * w
            &&& h.start < h.end ==> data_start + h.end <= file_len
        }),
{
    reveal_strlit("F32");
    reveal_strlit("BF16");
    reveal_strlit("F16");
    assert("F32"@.len() == 3 && "BF16"@.len() == 4 && "F16"@.len() == 3);
    assert("F32"@[1] != "F16"@[1]);
}

/// A header that is written as an array of its three parts says what one that is written as
/// an object says, and either names the type, the shape and the two ends of the range.
pub proof fn headers_come_in_two_forms(object: Seq<char>, array: Seq<char>)
    requires
        json::json_members_of(object) is Some,
        ({
            let m = json::json_members_of(object)->0;
            &&& m.contains_key("dtype"@)
            &&& m.contains_key("shape"@)
            &&& m.contains_key("data_offsets"@)
            &&& json::json_members_of(array) is None
            &&& json::json_items_of(array) == Some(
                seq![m["dtype"@], m["shape"@], m["data_offsets"@]],
            )
        }),
    ensures
        header_of(object) == header_of(array),
        ({
            let m = json::json_members_of(object)->0;
            header_of(object) matches Some(h) ==> {
                &&& json::json_string_of(m["dtype"@]) == Some(h.dtype)
                &&& json::json_numbers_of(m["shape"@]) is Some
                &&& json::json_numbers_of(m["shape"@])->0.len() == h.shape.len()
                &&& forall|i: int|
                    0 <= i < h.shape.len() ==> #[trigger] h.shape[i] == json::json_numbers_of(
                        m["shape"@],
                    )->0[i]
                &&& json::json_numbers_of(m["data_offsets"@]) is Some
                &&& json::json_numbers_of(m["data_offsets"@])->0.len() == 2
                &&& h.start == json::json_numbers_of(m["data_offsets"@])->0[0]
                &&& h.end == json::json_numbers_of(m["data_offsets"@])->0[1]
            }
        }),
{
}

/// Every member of a header but its metadata is a tensor.
pub proof fn metadata_is_no_tensor(file: Seq<u8>, name: Seq<char>)
    ensures
        has_tensor(file, name) <==> members_of(file).contains_key(name) && name
            != "__metadata__"@,
{
}

/// A fault says what is wrong: no header, a type that is not supported, a range that ends
/// before it starts, a range of another size than the shape needs, or one that goes beyond
/// the file.
pub proof fn faults_say_what_is_wrong(
    name: Seq<char>,
    h: HeaderView,
    file_len: int,
    data_start: int,
)
    ensures
        fault_of(name, None, file_len, data_start) == Some(Fault::BadHeader { name }),
        ({
            let fault = fault_of(name, Some(h), file_len, data_start);
            let known = h.dtype == "F32"@ || h.dtype == "BF16"@ || h.dtype == "F16"@;
            let w: int = if h.dtype == "F32"@ {
                4
            } else {
                2
            };
            let need = volume(h.shape) * w;
            &&& !known ==> fault == Some(Fault::UnsupportedDtype { name, dtype: h.dtype })
            &&& known && need > usize::MAX ==> fault == Some(
                Fault::TooLarge { name, shape: h.shape },
            )
            &&& known && need <= usize::MAX && h.end < h.start ==> fault == Some(
                Fault::InvalidRange { name, start: h.start, end: h.end },
            )
            &&& known && need <= usize::MAX && h.start <= h.end && h.end - h.start != need
                ==> fault == Some(
                Fault::SizeMismatch {
                    name,
                    expected: need as usize,
                    shape: h.shape,
                    dtype: h.dtype,
                    actual: (h.end - h.start) as usize,
                },
            )
            &&& known && h.start < h.end && h.end - h.start == need && data_start + h.end
                > file_len ==> fault == Some(Fault::BeyondFile { name, end: h.end })
        }),
{
    reveal_strlit("F32");
    reveal_strlit("BF16");
    reveal_strlit("F16");
    assert("F32"@.len() == 3 && "BF16"@.len() == 4 && "F16"@.len() == 3);
    assert("F32"@[1] != "F16"@[1]);
}

} // verus!
