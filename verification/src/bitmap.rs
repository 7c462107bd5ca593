use vstd::prelude::*;
use byteorder::LittleEndian;
use byteorder::WriteBytesExt;
use crate::error::GraphError;

verus! {

/// Length of the file header in bytes.
pub const HEADER_LENGHT: u32 = 14;
/// Length of the info header in bytes.
pub const INFO_LENGHT: u32 = 124;
/// Length of one entry of the colour table in bytes.
pub const COLOR_SIZE: u32 = 4;
/// The fourth byte of an entry of the colour table.
pub const RESERVED: u8 = 0;
/// Number of entries that the colour table holds in the file, used or not.
pub const PALETTE_CAPACITY: usize = 256;
/// The two letters `BM`, read as a little-endian 16 bit number.
pub const SIGNATURE: u16 = 0x4d42;
/// Pixels per metre that make 96 dots per inch.
pub const PELS_PER_METER: i32 = 3780;
/// Rendering intent "picture".
pub const INTENT: u32 = 4;

/// The two bytes of `n`, least significant first.
pub open spec fn le_u16(n: u16) -> Seq<u8> {
    seq![(n % 256) as u8, (n / 256) as u8]
}

/// The four bytes of `n`, least significant first.
pub open spec fn le_u32(n: u32) -> Seq<u8> {
    seq![
        (n % 256) as u8,
        ((n / 256) % 256) as u8,
        ((n / 65536) % 256) as u8,
        (n / 16777216) as u8,
    ]
}

/// The four bytes of `n` in two's complement, least significant first.
pub open spec fn le_i32(n: i32) -> Seq<u8> {
    if n >= 0 {
        le_u32(n as u32)
    } else {
        le_u32((n + 0x1_0000_0000) as u32)
    }
}

/// `count` zero bytes.
pub open spec fn zeros(count: nat) -> Seq<u8> {
    Seq::new(count, |i: int| 0u8)
}

/// Appends the two bytes of `n`, least significant first, to `buf`.
///
/// Trusted: the body calls byteorder's `WriteBytesExt::write_u16` with the
/// `LittleEndian` order on a `Vec<u8>`, which stores `n.to_le_bytes()` behind
/// what the vector held. Writing into a vector cannot fail.
#[verifier::external_body]
fn put_u16_le(buf: &mut Vec<u8>, n: u16)
    ensures
        final(buf)@ == old(buf)@ + le_u16(n),
{
    let _ = buf.write_u16::<LittleEndian>(n);
}

/// Appends the four bytes of `n`, least significant first, to `buf`.
///
/// Trusted: the body calls byteorder's `WriteBytesExt::write_u32` with the
/// `LittleEndian` order on a `Vec<u8>`, which stores `n.to_le_bytes()` behind
/// what the vector held. Writing into a vector cannot fail.
#[verifier::external_body]
fn put_u32_le(buf: &mut Vec<u8>, n: u32)
    ensures
        final(buf)@ == old(buf)@ + le_u32(n),
{
    let _ = buf.write_u32::<LittleEndian>(n);
}

/// Appends the four bytes of `n` in two's complement, least significant first,
/// to `buf`.
///
/// Trusted: the body calls byteorder's `WriteBytesExt::write_i32` with the
/// `LittleEndian` order on a `Vec<u8>`, which reinterprets `n` as a `u32` and
/// stores its little-endian bytes behind what the vector held. Writing into a
/// vector cannot fail.
#[verifier::external_body]
fn put_i32_le(buf: &mut Vec<u8>, n: i32)
    ensures
        final(buf)@ == old(buf)@ + le_i32(n),
{
    let _ = buf.write_i32::<LittleEndian>(n);
}

/// A colour as red, green and blue.
#[derive(Debug, Clone, Copy, PartialEq, Eq, Structural)]
pub struct Color {
    pub r: u8,
    pub g: u8,
    pub b: u8,
}

/// The number that a hexadecimal digit stands for, if `c` is one.
pub open spec fn hex_value(c: char) -> Option<u8> {
    if '0' <= c && c <= '9' {
        Some((c as int - '0' as int) as u8)
    } else if 'a' <= c && c <= 'f' {
        Some((c as int - 'a' as int + 10) as u8)
    } else if 'A' <= c && c <= 'F' {
        Some((c as int - 'A' as int + 10) as u8)
    } else {
        None
    }
}

/// Whether `s` is `#` followed by exactly six hexadecimal digits.
pub open spec fn is_hex_color(s: Seq<char>) -> bool {
    &&& s.len() == 7
    &&& s[0] == '#'
    &&& forall|i: int| 1 <= i < 7 ==> (#[trigger] hex_value(s[i])).is_some()
}

/// The number that the two hexadecimal digits at `at` and `at + 1` stand for.
pub open spec fn hex_pair(s: Seq<char>, at: int) -> u8 {
    (16 * hex_value(s[at]).unwrap() + hex_value(s[at + 1]).unwrap()) as u8
}

/// The colour that a well-formed colour string stands for.
pub open spec fn parsed_color(s: Seq<char>) -> Color {
    Color { r: hex_pair(s, 1), g: hex_pair(s, 3), b: hex_pair(s, 5) }
}

fn hex_digit(c: char) -> (value: Option<u8>)
    ensures
        value == hex_value(c),
        value.is_some() ==> value.unwrap() < 16,
{
    let n: u32 = c as u32;
    if '0' <= c && c <= '9' {
        Some((n - 48) as u8)
    } else if 'a' <= c && c <= 'f' {
        Some((n - 97 + 10) as u8)
    } else if 'A' <= c && c <= 'F' {
        Some((n - 65 + 10) as u8)
    } else {
        None
    }
}

fn hex_byte(high: char, low: char) -> (value: Option<u8>)
    ensures
        value.is_some() <==> hex_value(high).is_some() && hex_value(low).is_some(),
        value.is_some() ==> value.unwrap() == 16 * hex_value(high).unwrap() + hex_value(
            low,
        ).unwrap(),
{
    match (hex_digit(high), hex_digit(low)) {
        (Some(h), Some(l)) => Some(16 * h + l),
        _ => None,
    }
}

impl Color {
    /// The table entry of this colour: blue, green, red and a reserved zero.
    pub open spec fn buffer(self) -> Seq<u8> {
        seq![self.b, self.g, self.r, RESERVED]
    }

    /// The table entry of this colour.
    pub fn get_buffer(&self) -> (buffer: Vec<u8>)
        ensures
            buffer@ == self.buffer(),
    {
        let mut buffer: Vec<u8> = Vec::new();
        buffer.push(self.b);
        buffer.push(self.g);
        buffer.push(self.r);
        buffer.push(RESERVED);
        proof {
            assert(buffer@ =~= self.buffer());
        }
        buffer
    }

    /// Reads a colour written as `#RRGGBB`, in upper or lower case.
    pub fn from_hex(string: &str) -> (result: Result<Color, GraphError>)
        ensures
            is_hex_color(string@) ==> result == Ok::<Color, GraphError>(parsed_color(string@)),
            !is_hex_color(string@) ==> result == Err::<Color, GraphError>(
                GraphError::InvalidColorFormat,
            ),
    {
        if string.unicode_len() != 7 {
            return Err(GraphError::InvalidColorFormat);
        }
        if string.get_char(0) != '#' {
            return Err(GraphError::InvalidColorFormat);
        }
        let r = hex_byte(string.get_char(1), string.get_char(2));
        let g = hex_byte(string.get_char(3), string.get_char(4));
        let b = hex_byte(string.get_char(5), string.get_char(6));
        match (r, g, b) {
            (Some(r), Some(g), Some(b)) => {
                proof {
                    assert forall|i: int| 1 <= i < 7 implies (#[trigger] hex_value(
                        string@[i],
                    )).is_some() by {
                        assert(i == 1 || i == 2 || i == 3 || i == 4 || i == 5 || i == 6);
                    }
                }
                Ok(Color { r, g, b })
            },
            _ => {
                proof {
                    assert(!is_hex_color(string@)) by {
                        if is_hex_color(string@) {
                            assert(hex_value(string@[1]).is_some());
                            assert(hex_value(string@[2]).is_some());
                            assert(hex_value(string@[3]).is_some());
                            assert(hex_value(string@[4]).is_some());
                            assert(hex_value(string@[5]).is_some());
                            assert(hex_value(string@[6]).is_some());
                        }
                    }
                }
                Err(GraphError::InvalidColorFormat)
            },
        }
    }
}


/// The 14 bytes that open the file.
#[derive(Debug)]
pub struct BitMapHeader {
    pub little_indian: u16,
    pub file_length: u32,
    pub reserved: u32,
    pub f_off_bitsfield: u32,
}

impl BitMapHeader {
    /// The header as it stands in the file.
    pub open spec fn bytes(self) -> Seq<u8> {
        le_u16(self.little_indian) + le_u32(self.file_length) + le_u32(self.reserved) + le_u32(
            self.f_off_bitsfield,
        )
    }

    /// A header with the signature set and both lengths still zero.
    pub fn new() -> (header: Self)
        ensures
            header.little_indian == SIGNATURE,
            header.file_length == 0,
            header.reserved == 0,
            header.f_off_bitsfield == 0,
    {
        BitMapHeader {
            little_indian: SIGNATURE,
            file_length: 0u32,
            reserved: 0u32,
            f_off_bitsfield: 0u32,
        }
    }

    /// Sets the length of the whole file.
    pub fn set_lenght(&mut self, length: u32)
        ensures
            *final(self) == (BitMapHeader { file_length: length, ..*old(self) }),
    {
        self.file_length = length;
    }

    /// Sets the place in the file at which the pixels start.
    pub fn set_data_offset(&mut self, offset: u32)
        ensures
            *final(self) == (BitMapHeader { f_off_bitsfield: offset, ..*old(self) }),
    {
        self.f_off_bitsfield = offset;
    }

    /// The header as it stands in the file.
    pub fn to_vec(&self) -> (header: Vec<u8>)
        ensures
            header@ == self.bytes(),
    {
        let mut header: Vec<u8> = Vec::new();
        put_u16_le(&mut header, self.little_indian);
        put_u32_le(&mut header, self.file_length);
        put_u32_le(&mut header, self.reserved);
        put_u32_le(&mut header, self.f_off_bitsfield);
        proof {
            assert(header@ =~= self.bytes());
        }
        header
    }
}

/// The 124 bytes that describe the picture.
#[derive(Debug)]
pub struct BitMapInfo {
    pub size: u32,
    pub width: i32,
    pub height: i32,
    pub planes: u16,
    pub bitcount: u16,
    pub compression: u32,
    pub sizeimage: u32,
    pub xpels_per_meter: i32,
    pub ypels_per_meter: i32,
    pub clr_used: u32,
    pub clr_important: u32,
    pub red_mask: u32,
    pub green_mask: u32,
    pub blue_mask: u32,
    pub alpha_mask: u32,
    pub c_stype: u32,
    pub gamma_red: u32,
    pub gamma_green: u32,
    pub gamma_blue: u32,
    pub intent: u32,
    pub profile_data: u32,
    pub profile_size: u32,
    pub reserved: u32,
}

/// Length in bytes of the colour-space block, which is left zero.
pub const CIEXYZ_LENGTH: usize = 36;

impl BitMapInfo {
    /// The fields from the header size to the colour count.
    pub open spec fn bytes_picture(self) -> Seq<u8> {
        le_u32(self.size) + le_i32(self.width) + le_i32(self.height) + le_u16(self.planes)
            + le_u16(self.bitcount) + le_u32(self.compression) + le_u32(self.sizeimage) + le_i32(
            self.xpels_per_meter,
        ) + le_i32(self.ypels_per_meter) + le_u32(self.clr_used) + le_u32(self.clr_important)
    }

    /// The four channel masks and the colour-space type.
    pub open spec fn bytes_masks(self) -> Seq<u8> {
        le_u32(self.red_mask) + le_u32(self.green_mask) + le_u32(self.blue_mask) + le_u32(
            self.alpha_mask,
        ) + le_u32(self.c_stype)
    }

    /// The gamma values, the intent, the profile fields and the reserved word.
    pub open spec fn bytes_gamma(self) -> Seq<u8> {
        le_u32(self.gamma_red) + le_u32(self.gamma_green) + le_u32(self.gamma_blue) + le_u32(
            self.intent,
        ) + le_u32(self.profile_data) + le_u32(self.profile_size) + le_u32(self.reserved)
    }

    /// The info header as it stands in the file.
    pub open spec fn bytes(self) -> Seq<u8> {
        self.bytes_picture() + self.bytes_masks() + zeros(CIEXYZ_LENGTH as nat)
            + self.bytes_gamma()
    }

    /// Whether every field but width, height and colour count has its fixed value.
    pub open spec fn is_standard(self) -> bool {
        &&& self.size == INFO_LENGHT
        &&& self.planes == 1
        &&& self.bitcount == 8
        &&& self.compression == 0
        &&& self.sizeimage == 0
        &&& self.xpels_per_meter == PELS_PER_METER
        &&& self.ypels_per_meter == PELS_PER_METER
        &&& self.clr_important == 0
        &&& self.red_mask == 0
        &&& self.green_mask == 0
        &&& self.blue_mask == 0
        &&& self.alpha_mask == 0
        &&& self.c_stype == 0
        &&& self.gamma_red == 0
        &&& self.gamma_green == 0
        &&& self.gamma_blue == 0
        &&& self.intent == INTENT
        &&& self.profile_data == 0
        &&& self.profile_size == 0
        &&& self.reserved == 0
    }

    /// An info header for indexed colour with no size and no colour yet.
    pub fn new() -> (info: Self)
        ensures
            info.is_standard(),
            info.width == 0,
            info.height == 0,
            info.clr_used == 0,
    {
        BitMapInfo {
            size: INFO_LENGHT,
            width: 0i32,
            height: 0i32,
            planes: 1u16,
            bitcount: 8u16,
            compression: 0u32,
            sizeimage: 0u32,
            xpels_per_meter: PELS_PER_METER,
            ypels_per_meter: PELS_PER_METER,
            clr_used: 0u32,
            clr_important: 0u32,
            red_mask: 0u32,
            green_mask: 0u32,
            blue_mask: 0u32,
            alpha_mask: 0u32,
            c_stype: 0u32,
            gamma_red: 0u32,
            gamma_green: 0u32,
            gamma_blue: 0u32,
            intent: INTENT,
            profile_data: 0u32,
            profile_size: 0u32,
            reserved: 0u32,
        }
    }

    /// The info header as it stands in the file.
    pub fn to_vec(&self) -> (bmp_info: Vec<u8>)
        ensures
            bmp_info@ == self.bytes(),
    {
        let mut bmp_info: Vec<u8> = Vec::new();
        put_u32_le(&mut bmp_info, self.size);
        put_i32_le(&mut bmp_info, self.width);
        put_i32_le(&mut bmp_info, self.height);
        put_u16_le(&mut bmp_info, self.planes);
        put_u16_le(&mut bmp_info, self.bitcount);
        put_u32_le(&mut bmp_info, self.compression);
        put_u32_le(&mut bmp_info, self.sizeimage);
        put_i32_le(&mut bmp_info, self.xpels_per_meter);
        put_i32_le(&mut bmp_info, self.ypels_per_meter);
        put_u32_le(&mut bmp_info, self.clr_used);
        put_u32_le(&mut bmp_info, self.clr_important);
        proof {
            assert(bmp_info@ =~= self.bytes_picture());
        }
        let ghost picture = bmp_info@;

        put_u32_le(&mut bmp_info, self.red_mask);
        put_u32_le(&mut bmp_info, self.green_mask);
        put_u32_le(&mut bmp_info, self.blue_mask);
        put_u32_le(&mut bmp_info, self.alpha_mask);
        put_u32_le(&mut bmp_info, self.c_stype);
        proof {
            assert(bmp_info@ =~= picture + self.bytes_masks());
        }
        let ghost masks = bmp_info@;

        let mut i: usize = 0;
        while i < CIEXYZ_LENGTH
            invariant
                i <= CIEXYZ_LENGTH,
                bmp_info@ == masks + zeros(i as nat),
            decreases CIEXYZ_LENGTH - i,
        {
            bmp_info.push(0u8);
            i += 1;
            proof {
                assert(bmp_info@ =~= masks + zeros(i as nat));
            }
        }
        let ghost block = bmp_info@;

        put_u32_le(&mut bmp_info, self.gamma_red);
        put_u32_le(&mut bmp_info, self.gamma_green);
        put_u32_le(&mut bmp_info, self.gamma_blue);
        put_u32_le(&mut bmp_info, self.intent);
        put_u32_le(&mut bmp_info, self.profile_data);
        put_u32_le(&mut bmp_info, self.profile_size);
        put_u32_le(&mut bmp_info, self.reserved);
        proof {
            assert(bmp_info@ =~= block + self.bytes_gamma());
        }
        bmp_info
    }

    /// Sets the width of the picture in pixels.
    pub fn set_width(&mut self, width: i32)
        ensures
            *final(self) == (BitMapInfo { width: width, ..*old(self) }),
    {
        self.width = width;
    }

    /// Sets the height of the picture in pixels.
    pub fn set_height(&mut self, height: i32)
        ensures
            *final(self) == (BitMapInfo { height: height, ..*old(self) }),
    {
        self.height = height;
    }
}

/// The byte at position `at` of the colour table that holds `palette`.
pub open spec fn table_byte(palette: Seq<Color>, at: int) -> u8 {
    if 0 <= at / 4 < palette.len() {
        palette[at / 4].buffer()[at % 4]
    } else {
        0
    }
}

/// The colour table as it stands in the file: the palette in index order,
/// four bytes an entry, and zero bytes up to 256 entries.
pub open spec fn table_bytes(palette: Seq<Color>) -> Seq<u8> {
    Seq::new((PALETTE_CAPACITY * 4) as nat, |at: int| table_byte(palette, at))
}

/// The colours in use, in the order of their indices.
#[derive(Debug)]
pub struct ColorTable {
    pub table: Vec<Color>,
}

impl ColorTable {
    /// The table holds no more colours than the file has room for.
    pub open spec fn wf(self) -> bool {
        self.table@.len() <= PALETTE_CAPACITY
    }

    /// A table without colours.
    pub fn new() -> (colors: ColorTable)
        ensures
            colors.table@ == Seq::<Color>::empty(),
            colors.wf(),
    {
        ColorTable { table: Vec::new() }
    }

    /// Puts `color` behind the colours that the table holds.
    pub fn add_color(&mut self, color: Color)
        requires
            old(self).table@.len() < PALETTE_CAPACITY,
        ensures
            final(self).table@ == old(self).table@.push(color),
            final(self).wf(),
    {
        self.table.push(color);
    }

    /// The index of the first entry equal to `color`, if there is one.
    pub fn find(&self, color: Color) -> (index: Option<usize>)
        ensures
            match index {
                Some(i) => i < self.table@.len() && self.table@[i as int] == color && forall|
                    j: int,
                | 0 <= j < i ==> self.table@[j] != color,
                None => !self.table@.contains(color),
            },
    {
        let mut i: usize = 0;
        while i < self.table.len()
            invariant
                i <= self.table@.len(),
                forall|j: int| 0 <= j < i ==> self.table@[j] != color,
            decreases self.table@.len() - i,
        {
            if self.table[i] == color {
                return Some(i);
            }
            i += 1;
        }
        None
    }

    /// Length in bytes of the table in the file, whatever it holds.
    pub fn get_size(&self) -> (size: u32)
        ensures
            size == 256 * COLOR_SIZE,
    {
        256 * COLOR_SIZE
    }

    /// The table as it stands in the file, unused entries included.
    pub fn to_vec(&self) -> (v: Vec<u8>)
        requires
            self.wf(),
        ensures
            v@ == table_bytes(self.table@),
    {
        let mut v: Vec<u8> = Vec::new();
        let count: usize = self.table.len();
        let mut i: usize = 0;
        while i < count
            invariant
                i <= count,
                count == self.table@.len(),
                count <= PALETTE_CAPACITY,
                v@.len() == 4 * i,
                forall|at: int| 0 <= at < 4 * i ==> v@[at] == table_byte(self.table@, at),
            decreases count - i,
        {
            let mut entry = self.table[i].get_buffer();
            v.append(&mut entry);
            i += 1;
        }
        while i < PALETTE_CAPACITY
            invariant
                count <= i <= PALETTE_CAPACITY,
                count == self.table@.len(),
                v@.len() == 4 * i,
                forall|at: int| 0 <= at < 4 * i ==> v@[at] == table_byte(self.table@, at),
            decreases PALETTE_CAPACITY - i,
        {
            put_u32_le(&mut v, 0);
            i += 1;
        }
        proof {
            assert(v@ =~= table_bytes(self.table@));
        }
        v
    }
}

/// Whether `at` is the first place at which `palette` holds `color`.
pub open spec fn is_first_index(palette: Seq<Color>, color: Color, at: int) -> bool {
    &&& 0 <= at < palette.len()
    &&& palette[at] == color
    &&& forall|j: int| 0 <= j < at ==> palette[j] != color
}

/// The index of `color` in `palette`: the first place at which it stands.
pub open spec fn index_in(palette: Seq<Color>, color: Color) -> int {
    choose|at: int| is_first_index(palette, color, at)
}

/// A colour has one first place only.
pub proof fn lemma_index_in(palette: Seq<Color>, color: Color, at: int)
    requires
        is_first_index(palette, color, at),
    ensures
        index_in(palette, color) == at,
{
    let other = index_in(palette, color);
    assert(is_first_index(palette, color, other));
    if other < at {
        assert(palette[other] != color);
    }
    if at < other {
        assert(palette[at] != color);
    }
}

/// What a bitmap holds, as plain values.
pub ghost struct BitMapView {
    pub width: int,
    pub height: int,
    pub palette: Seq<Color>,
    pub pixels: Seq<u8>,
}

/// Offset of the pixel data in the file: both headers and the full colour table.
pub open spec fn data_offset() -> int {
    HEADER_LENGHT + INFO_LENGHT + PALETTE_CAPACITY * COLOR_SIZE
}

/// The file header of a picture with `pixel_count` bytes of pixel data.
pub open spec fn header_of(pixel_count: int) -> BitMapHeader {
    BitMapHeader {
        little_indian: SIGNATURE,
        file_length: (data_offset() + pixel_count) as u32,
        reserved: 0,
        f_off_bitsfield: data_offset() as u32,
    }
}

/// The info header of a picture of the given size with `colors` palette entries in use.
pub open spec fn info_of(width: int, height: int, colors: int) -> BitMapInfo {
    BitMapInfo {
        size: INFO_LENGHT,
        width: width as i32,
        height: height as i32,
        planes: 1,
        bitcount: 8,
        compression: 0,
        sizeimage: 0,
        xpels_per_meter: PELS_PER_METER,
        ypels_per_meter: PELS_PER_METER,
        clr_used: colors as u32,
        clr_important: 0,
        red_mask: 0,
        green_mask: 0,
        blue_mask: 0,
        alpha_mask: 0,
        c_stype: 0,
        gamma_red: 0,
        gamma_green: 0,
        gamma_blue: 0,
        intent: INTENT,
        profile_data: 0,
        profile_size: 0,
        reserved: 0,
    }
}

/// The whole file: file header, info header, colour table, then the pixel
/// bytes in the order in which they were added.
pub open spec fn encoded(picture: BitMapView) -> Seq<u8> {
    header_of(picture.pixels.len() as int).bytes() + info_of(
        picture.width,
        picture.height,
        picture.palette.len() as int,
    ).bytes() + table_bytes(picture.palette) + picture.pixels
}

/// An indexed-colour picture: a palette and one byte a pixel.
#[derive(Debug)]
pub struct BitMap {
    header: BitMapHeader,
    info: BitMapInfo,
    color_table: ColorTable,
    array: Vec<u8>,
}

impl View for BitMap {
    type V = BitMapView;

    closed spec fn view(&self) -> BitMapView {
        BitMapView {
            width: self.info.width as int,
            height: self.info.height as int,
            palette: self.color_table.table@,
            pixels: self.array@,
        }
    }
}

impl Default for BitMap {
    fn default() -> (bitmap: Self)
        ensures
            bitmap.wf(),
            bitmap@ == (BitMapView {
                width: 740,
                height: 480,
                palette: Seq::empty(),
                pixels: Seq::empty(),
            }),
    {
        Self::new(740, 480)
    }
}

impl BitMap {
    /// The palette fits the table, and the headers agree with what is held.
    pub closed spec fn wf(&self) -> bool {
        &&& self.color_table.wf()
        &&& self.info.is_standard()
        &&& self.info.clr_used == self.color_table.table@.len()
        &&& self.info.width >= 0
        &&& self.info.height >= 0
        &&& self.header.little_indian == SIGNATURE
        &&& self.header.reserved == 0
    }

    /// A picture of the given size with no colour and no pixel yet.
    pub fn new(width: usize, height: usize) -> (bitmap: Self)
        requires
            width <= i32::MAX,
            height <= i32::MAX,
        ensures
            bitmap.wf(),
            bitmap@ == (BitMapView {
                width: width as int,
                height: height as int,
                palette: Seq::empty(),
                pixels: Seq::empty(),
            }),
    {
        let mut b = BitMap {
            header: BitMapHeader::new(),
            info: BitMapInfo::new(),
            color_table: ColorTable::new(),
            array: Vec::new(),
        };
        b.info.set_width(width as i32);
        b.info.set_height(height as i32);
        b
    }

    /// Puts the bytes of `pic` behind the pixels held so far.
    pub fn add_pixels(&mut self, pic: &[u8])
        requires
            old(self).wf(),
        ensures
            final(self).wf(),
            final(self)@ == (BitMapView { pixels: old(self)@.pixels + pic@, ..old(self)@ }),
    {
        self.array.extend_from_slice(pic);
        proof {
            assert(self.array@ =~= old(self).array@ + pic@);
        }
    }

    /// The palette index of `color`. A colour that the palette does not hold
    /// yet goes behind the others; there is room for 256.
    pub fn add_color(&mut self, color: Color) -> (result: Result<u8, GraphError>)
        requires
            old(self).wf(),
        ensures
            final(self).wf(),
            result is Ok ==> result->Ok_0 == index_in(final(self)@.palette, color),
            old(self)@.palette.contains(color) ==> {
                &&& final(self)@ == old(self)@
                &&& result.is_ok()
                &&& old(self)@.palette[result.unwrap() as int] == color
                &&& forall|j: int|
                    0 <= j < result.unwrap() ==> old(self)@.palette[j] != color
            },
            !old(self)@.palette.contains(color) && old(self)@.palette.len() < PALETTE_CAPACITY
                ==> {
                &&& final(self)@ == (BitMapView {
                    palette: old(self)@.palette.push(color),
                    ..old(self)@
                })
                &&& result == Ok::<u8, GraphError>(old(self)@.palette.len() as u8)
            },
            !old(self)@.palette.contains(color) && old(self)@.palette.len() >= PALETTE_CAPACITY
                ==> {
                &&& final(self)@ == old(self)@
                &&& result == Err::<u8, GraphError>(GraphError::PaletteExhausted)
            },
    {
        match self.color_table.find(color) {
            Some(i) => {
                proof {
                    lemma_index_in(self@.palette, color, i as int);
                }
                Ok(i as u8)
            },
            None => {
                if self.color_table.table.len() >= PALETTE_CAPACITY {
                    return Err(GraphError::PaletteExhausted);
                }
                self.color_table.add_color(color);
                self.info.clr_used += 1;
                proof {
                    assert forall|j: int| 0 <= j < old(self)@.palette.len() implies old(
                        self,
                    )@.palette[j] != color by {
                        assert(old(self)@.palette.contains(old(self)@.palette[j]));
                    }
                    lemma_index_in(self@.palette, color, old(self)@.palette.len() as int);
                }
                Ok((self.info.clr_used - 1) as u8)
            },
        }
    }

    /// The picture as a file. The headers are brought up to date first.
    pub fn as_vec(&mut self) -> (bitmap: Vec<u8>)
        requires
            old(self).wf(),
            data_offset() + old(self)@.pixels.len() <= u32::MAX,
        ensures
            final(self).wf(),
            final(self)@ == old(self)@,
            bitmap@ == encoded(old(self)@),
    {
        let mut bitmap: Vec<u8> = Vec::new();

        let pixels_data_offset: u32 = HEADER_LENGHT + INFO_LENGHT + self.color_table.get_size();
        self.header.set_data_offset(pixels_data_offset);

        let file_lenght: u32 = pixels_data_offset + self.array.len() as u32;
        self.header.set_lenght(file_lenght);

        let header = self.header.to_vec();
        let info = self.info.to_vec();
        let table = self.color_table.to_vec();
        bitmap.extend_from_slice(header.as_slice());
        bitmap.extend_from_slice(info.as_slice());
        bitmap.extend_from_slice(table.as_slice());
        bitmap.extend_from_slice(self.array.as_slice());
        proof {
            assert(self.header == header_of(self.array@.len() as int));
            assert(self.info == info_of(
                self.info.width as int,
                self.info.height as int,
                self.color_table.table@.len() as int,
            ));
        }
        bitmap
    }
}

/// A well-formed picture holds at most 256 colours and has no negative side.
pub proof fn lemma_palette_bounded(picture: &BitMap)
    requires
        picture.wf(),
    ensures
        picture@.palette.len() <= PALETTE_CAPACITY,
        0 <= picture@.width <= i32::MAX,
        0 <= picture@.height <= i32::MAX,
{
}

/// A file is both headers, the full colour table and one byte a pixel long,
/// and opens with the letters `BM`.
pub proof fn lemma_encoded_layout(picture: BitMapView)
    ensures
        encoded(picture).len() == 14 + 124 + 256 * 4 + picture.pixels.len(),
        encoded(picture)[0] == 0x42,
        encoded(picture)[1] == 0x4d,
        encoded(picture).subrange(data_offset(), encoded(picture).len() as int)
            == picture.pixels,
{
    let header = header_of(picture.pixels.len() as int);
    let info = info_of(picture.width, picture.height, picture.palette.len() as int);
    assert(header.bytes().len() == 14);
    assert(info.bytes_picture().len() == 40);
    assert(info.bytes_masks().len() == 20);
    assert(info.bytes_gamma().len() == 28);
    assert(info.bytes().len() == 124);
    assert(table_bytes(picture.palette).len() == 1024);
    assert(header.bytes()[0] == 0x42 && header.bytes()[1] == 0x4d);
    assert(encoded(picture).subrange(data_offset(), encoded(picture).len() as int)
        =~= picture.pixels);
}

} // verus!
