//! The integer and string logic of building vector tiles: tag lookup,
//! OSM color and roof-direction tags, roof shapes, and Terrain-RGB heights.
use vstd::prelude::*;
use crate::imagery::RgbaPixels;
use crate::mvt_tile::MvtValue;
use vstd::string::StringSliceAdditionalSpecFns;

verus! {

/// Calls `<str as PartialEq>::eq`: whether the two strings are equal.
#[verifier::external_body]
pub(crate) fn str_eq(a: &str, b: &str) -> (r: bool)
    ensures
        r == (a@ == b@),
{
    a == b
}

/// The position of the first string in `names` equal to `name`.
pub fn find_first(names: &Vec<String>, name: &str) -> (r: Option<usize>)
    ensures
        match r {
            Some(i) => i < names@.len() && names@[i as int]@ == name@ && forall|j: int|
                0 <= j < i ==> (#[trigger] names@[j])@ != name@,
            None => forall|j: int| 0 <= j < names@.len() ==> (#[trigger] names@[j])@ != name@,
        },
{
    let mut i: usize = 0;
    while i < names.len()
        invariant
            i <= names@.len(),
            forall|j: int| 0 <= j < i ==> (#[trigger] names@[j])@ != name@,
        decreases names@.len() - i,
    {
        if str_eq(names[i].as_str(), name) {
            return Some(i);
        }
        i = i + 1;
    }
    None
}

/// The key index of tag pair `q`.
pub open spec fn pair_key(tags: Seq<u32>, q: int) -> u32 {
    tags[2 * q]
}

/// `ki` is the index of the first key of `keys` equal to `key`.
pub open spec fn first_key(keys: Seq<String>, key: Seq<char>, ki: int) -> bool {
    &&& 0 <= ki < keys.len()
    &&& keys[ki]@ == key
    &&& forall|j: int| 0 <= j < ki ==> (#[trigger] keys[j])@ != key
}

/// Tag pair `p` (the tags `2p` and `2p + 1`) is the first pair whose key index is `ki`.
pub open spec fn first_pair(tags: Seq<u32>, ki: int, p: int) -> bool {
    &&& 0 <= p
    &&& 2 * p + 1 < tags.len()
    &&& tags[2 * p] == ki
    &&& forall|q: int| 0 <= q < p ==> #[trigger] pair_key(tags, q) != ki
}

/// Whether looking up `key` in a feature's `tags` stays inside the tags: the
/// lookup walks the tags two by two and must not stop at a lone last tag.
pub open spec fn get_prop_ok(keys: Seq<String>, tags: Seq<u32>, key: Seq<char>) -> bool {
    forall|ki: int|
        #![trigger first_key(keys, key, ki)]
        first_key(keys, key, ki) && tags.len() % 2 == 1 && tags[tags.len() - 1] == ki ==> exists|p: int|
            0 <= p && 2 * p + 1 < tags.len() && #[trigger] pair_key(tags, p) == ki
}

/// The index, into the layer's values, of the value of the feature's tag `key`: the
/// key is looked up among the layer's `keys`, then the feature's `tags` (pairs of
/// key index and value index) are searched for the first pair with that key.
pub fn get_prop(keys: &Vec<String>, tags: &Vec<u32>, key: &str) -> (r: Option<u32>)
    requires
        get_prop_ok(keys@, tags@, key@),
    ensures
        match r {
            Some(v) => exists|ki: int, p: int|
                first_key(keys@, key@, ki) && first_pair(tags@, ki, p) && v == tags@[2 * p + 1],
            None => (forall|j: int| 0 <= j < keys@.len() ==> (#[trigger] keys@[j])@ != key@) || exists|ki: int|
                first_key(keys@, key@, ki) && forall|q: int| 0 <= q && 2 * q < tags@.len() ==> #[trigger] pair_key(tags@, q) != ki,
        },
{
    let key_idx = match find_first(keys, key) {
        Some(i) => i,
        None => {
            return None;
        },
    };
    assert(first_key(keys@, key@, key_idx as int));
    let n_chunks = tags.len() / 2 + tags.len() % 2;
    let mut p: usize = 0;
    while p < n_chunks
        invariant
            n_chunks == tags@.len() / 2 + tags@.len() % 2,
            tags@.len() <= usize::MAX,
            first_key(keys@, key@, key_idx as int),
            get_prop_ok(keys@, tags@, key@),
            2 * p <= tags@.len() + 1,
            forall|q: int| 0 <= q < p ==> #[trigger] pair_key(tags@, q) != key_idx,
        decreases n_chunks - p,
    {
        assert(2 * p < tags@.len()) by (nonlinear_arith)
            requires
                p < n_chunks,
                n_chunks == tags@.len() / 2 + tags@.len() % 2,
            tags@.len() <= usize::MAX,
        ;
        assert(pair_key(tags@, p as int) == tags@[2 * p]);
        if tags[2 * p] as usize == key_idx {
            if 2 * p + 1 >= tags.len() {
                proof {
                    let ki = key_idx as int;
                    assert(tags@.len() % 2 == 1 && tags@[tags@.len() - 1] == ki);
                    let w = choose|w: int| 0 <= w && 2 * w + 1 < tags@.len() && #[trigger] pair_key(tags@, w) == ki;
                    assert(w < p);
                }
            }
            assert(first_pair(tags@, key_idx as int, p as int));
            return Some(tags[2 * p + 1]);
        }
        p = p + 1;
    }
    proof {
        assert forall|q: int| 0 <= q && 2 * q < tags@.len() implies #[trigger] pair_key(tags@, q) != key_idx by {
            assert(q < p);
        }
    }
    None
}

/// Tag pair `p` of a feature says `natural=tree`, with both indices in range.
pub open spec fn tree_pair(keys: Seq<String>, values: Seq<String>, tags: Seq<u32>, p: int) -> bool {
    &&& 0 <= p
    &&& 2 * p + 1 < tags.len()
    &&& tags[2 * p] < keys.len()
    &&& tags[2 * p + 1] < values.len()
    &&& keys[tags[2 * p] as int]@ == "natural"@
    &&& values[tags[2 * p + 1] as int]@ == "tree"@
}

/// Tag pair `p` can be read: both of its tags exist, and its key and value
/// indices are in range.
pub open spec fn pair_readable(keys: Seq<String>, values: Seq<String>, tags: Seq<u32>, p: int) -> bool {
    &&& 2 * p + 1 < tags.len()
    &&& tags[2 * p] < keys.len()
    &&& tags[2 * p + 1] < values.len()
}

/// Whether the tag pairs can be read up to the first `natural=tree` pair (or to
/// the end when there is none): each of them has both tags, with its key and
/// value indices in range.
pub open spec fn is_tree_ok(keys: Seq<String>, values: Seq<String>, tags: Seq<u32>) -> bool {
    forall|p: int|
        0 <= p && 2 * p < tags.len() && (forall|q: int| 0 <= q < p ==> !#[trigger] tree_pair(keys, values, tags, q))
            ==> #[trigger] pair_readable(keys, values, tags, p)
}

/// Whether a feature is tagged `natural=tree`: `values` holds the string value of
/// each of the layer's values.
pub fn is_tree(keys: &Vec<String>, values: &Vec<String>, tags: &Vec<u32>) -> (r: bool)
    requires
        is_tree_ok(keys@, values@, tags@),
    ensures
        r == exists|p: int| tree_pair(keys@, values@, tags@, p),
{
    let n_chunks = tags.len() / 2 + tags.len() % 2;
    let mut p: usize = 0;
    while p < n_chunks
        invariant
            n_chunks == tags@.len() / 2 + tags@.len() % 2,
            tags@.len() <= usize::MAX,
            is_tree_ok(keys@, values@, tags@),
            2 * p <= tags@.len() + 1,
            forall|q: int| 0 <= q < p ==> !#[trigger] tree_pair(keys@, values@, tags@, q),
        decreases n_chunks - p,
    {
        assert(2 * p < tags@.len()) by (nonlinear_arith)
            requires
                p < n_chunks,
                n_chunks == tags@.len() / 2 + tags@.len() % 2,
            tags@.len() <= usize::MAX,
        ;
        assert(pair_readable(keys@, values@, tags@, p as int));
        let k = tags[2 * p] as usize;
        if str_eq(keys[k].as_str(), "natural") {
            let v = tags[2 * p + 1] as usize;
            if str_eq(values[v].as_str(), "tree") {
                assert(tree_pair(keys@, values@, tags@, p as int));
                return true;
            }
        }
        assert(!tree_pair(keys@, values@, tags@, p as int));
        p = p + 1;
    }
    proof {
        assert forall|q: int| !tree_pair(keys@, values@, tags@, q) by {
            if 0 <= q < p {
            }
        }
    }
    false
}

} // verus!

verus! {

/// A color given by an OSM `*_color` tag.
#[derive(Clone, Copy, Debug, PartialEq, Eq, Structural)]
pub enum OsmColor {
    /// Red, green and blue in thousandths.
    Permille(u16, u16, u16),
    /// Red, green and blue out of 255, from a `#RRGGBB` tag.
    Rgb8(u8, u8, u8),
}

/// The named colors the viewer knows, in thousandths.
pub open spec fn named_color(s: Seq<char>) -> Option<(u16, u16, u16)> {
    if s == "white"@ {
        Some((900, 900, 900))
    } else if s == "black"@ {
        Some((100, 100, 100))
    } else if s == "gray"@ || s == "grey"@ {
        Some((500, 500, 500))
    } else if s == "light_gray"@ {
        Some((700, 700, 700))
    } else if s == "red"@ {
        Some((800, 100, 100))
    } else if s == "green"@ {
        Some((100, 600, 100))
    } else if s == "blue"@ {
        Some((200, 200, 800))
    } else if s == "yellow"@ {
        Some((900, 900, 100))
    } else if s == "brown"@ {
        Some((400, 200, 100))
    } else if s == "orange"@ {
        Some((900, 500, 100))
    } else if s == "beige"@ {
        Some((960, 960, 860))
    } else if s == "brick_red"@ {
        Some((800, 250, 150))
    } else if s == "roof_default"@ {
        Some((550, 200, 200))
    } else if s == "default"@ {
        Some((850, 850, 850))
    } else {
        None
    }
}

/// The value of an ASCII hexadecimal digit.
pub open spec fn hex_digit(b: u8) -> Option<u8> {
    if 48 <= b <= 57 {
        Some((b - 48) as u8)
    } else if 97 <= b <= 102 {
        Some((b - 87) as u8)
    } else if 65 <= b <= 70 {
        Some((b - 55) as u8)
    } else {
        None
    }
}

/// What `u8::from_str_radix(_, 16)` makes of the two bytes `b1 b2`: a leading `+`
/// is allowed before a single digit; otherwise both must be hexadecimal digits.
pub open spec fn radix16_pair(b1: u8, b2: u8) -> Option<u8> {
    if b1 == 43 {
        hex_digit(b2)
    } else {
        match (hex_digit(b1), hex_digit(b2)) {
            (Some(h1), Some(h2)) => Some((16 * h1 + h2) as u8),
            _ => None,
        }
    }
}

/// A color channel of a `#RRGGBB` tag: the two bytes in base 16, or 255 when they
/// do not parse.
pub open spec fn hex_channel(b1: u8, b2: u8) -> u8 {
    match radix16_pair(b1, b2) {
        Some(v) => v,
        None => 255,
    }
}

/// Whether the UTF-8 bytes of a tag have the shape `#` followed by six bytes.
pub open spec fn hex_shaped(bytes: Seq<u8>) -> bool {
    bytes.len() == 7 && bytes[0] == 35
}

/// The color a tag stands for: a named color, a `#RRGGBB` color, or light gray.
pub open spec fn osm_color_spec(chars: Seq<char>, bytes: Seq<u8>) -> OsmColor {
    match named_color(chars) {
        Some(c) => OsmColor::Permille(c.0, c.1, c.2),
        None => if hex_shaped(bytes) {
            OsmColor::Rgb8(
                hex_channel(bytes[1], bytes[2]),
                hex_channel(bytes[3], bytes[4]),
                hex_channel(bytes[5], bytes[6]),
            )
        } else {
            OsmColor::Permille(800, 800, 800)
        },
    }
}

/// Whether a `#RRGGBB`-shaped tag can be cut into its three channels: the cuts at
/// bytes 1, 3, 5 and 7 must fall between characters.
pub open spec fn osm_color_ok(chars: Seq<char>, bytes: Seq<u8>) -> bool {
    named_color(chars) is None && hex_shaped(bytes) ==> {
        &&& vstd::utf8::is_char_boundary(bytes, 1)
        &&& vstd::utf8::is_char_boundary(bytes, 3)
        &&& vstd::utf8::is_char_boundary(bytes, 5)
        &&& vstd::utf8::is_char_boundary(bytes, 7)
    }
}

/// The value of a hexadecimal digit byte.
pub fn hex_digit_exec(b: u8) -> (r: Option<u8>)
    ensures
        r == hex_digit(b),
{
    if 48 <= b && b <= 57 {
        Some(b - 48)
    } else if 97 <= b && b <= 102 {
        Some(b - 87)
    } else if 65 <= b && b <= 70 {
        Some(b - 55)
    } else {
        None
    }
}

/// A color channel of a `#RRGGBB` tag.
pub fn hex_channel_exec(b1: u8, b2: u8) -> (r: u8)
    ensures
        r == hex_channel(b1, b2),
{
    let parsed = if b1 == 43 {
        hex_digit_exec(b2)
    } else {
        match (hex_digit_exec(b1), hex_digit_exec(b2)) {
            (Some(h1), Some(h2)) => Some(16 * h1 + h2),
            _ => None,
        }
    };
    match parsed {
        Some(v) => v,
        None => 255,
    }
}

/// The named color `color` stands for, if any.
pub fn named_color_exec(color: &str) -> (r: Option<(u16, u16, u16)>)
    ensures
        r == named_color(color@),
{
    if str_eq(color, "white") {
        Some((900, 900, 900))
    } else if str_eq(color, "black") {
        Some((100, 100, 100))
    } else if str_eq(color, "gray") || str_eq(color, "grey") {
        Some((500, 500, 500))
    } else if str_eq(color, "light_gray") {
        Some((700, 700, 700))
    } else if str_eq(color, "red") {
        Some((800, 100, 100))
    } else if str_eq(color, "green") {
        Some((100, 600, 100))
    } else if str_eq(color, "blue") {
        Some((200, 200, 800))
    } else if str_eq(color, "yellow") {
        Some((900, 900, 100))
    } else if str_eq(color, "brown") {
        Some((400, 200, 100))
    } else if str_eq(color, "orange") {
        Some((900, 500, 100))
    } else if str_eq(color, "beige") {
        Some((960, 960, 860))
    } else if str_eq(color, "brick_red") {
        Some((800, 250, 150))
    } else if str_eq(color, "roof_default") {
        Some((550, 200, 200))
    } else if str_eq(color, "default") {
        Some((850, 850, 850))
    } else {
        None
    }
}

/// The color an OSM color tag stands for: one of the named colors, a `#RRGGBB`
/// hex color (a channel that does not parse counts as 255), or light gray.
pub fn parse_osm_color(color: &str) -> (c: OsmColor)
    requires
        osm_color_ok(color@, color.spec_bytes()),
    ensures
        c == osm_color_spec(color@, color.spec_bytes()),
{
    match named_color_exec(color) {
        Some(n) => OsmColor::Permille(n.0, n.1, n.2),
        None => {
            let bytes = color.as_bytes();
            if bytes.len() == 7 && bytes[0] == 35 {
                OsmColor::Rgb8(
                    hex_channel_exec(bytes[1], bytes[2]),
                    hex_channel_exec(bytes[3], bytes[4]),
                    hex_channel_exec(bytes[5], bytes[6]),
                )
            } else {
                OsmColor::Permille(800, 800, 800)
            }
        },
    }
}

} // verus!

verus! {

/// Whether `c` has the Unicode property `White_Space`, which is what `str::trim`
/// removes.
pub open spec fn is_white_space(c: char) -> bool {
    let u = c as u32;
    ||| 0x9 <= u <= 0xD
    ||| u == 0x20
    ||| u == 0x85
    ||| u == 0xA0
    ||| u == 0x1680
    ||| 0x2000 <= u <= 0x200A
    ||| u == 0x2028
    ||| u == 0x2029
    ||| u == 0x202F
    ||| u == 0x205F
    ||| u == 0x3000
}

/// What `str::trim` keeps of a string: it without leading and trailing white space.
pub open spec fn trimmed(s: Seq<char>) -> Seq<char>
    decreases s.len(),
{
    if s.len() > 0 && is_white_space(s[0]) {
        trimmed(s.drop_first())
    } else if s.len() > 0 && is_white_space(s.last()) {
        trimmed(s.drop_last())
    } else {
        s
    }
}

/// What `str::to_uppercase` makes of a string.
pub uninterp spec fn uppercased(s: Seq<char>) -> Seq<char>;

/// Calls `str::trim`: the string without leading and trailing white space.
#[verifier::external_body]
pub(crate) fn str_trim(s: &str) -> (r: &str)
    ensures
        r@ == trimmed(s@),
{
    s.trim()
}

/// Calls `str::to_uppercase`; the result is the one `uppercased` names.
#[verifier::external_body]
pub(crate) fn str_to_uppercase(s: &str) -> (r: String)
    ensures
        r@ == uppercased(s@),
{
    s.to_uppercase()
}

/// The direction, in tenths of a degree clockwise from north, of a point of the
/// 16-point compass written in capitals.
pub open spec fn compass_spec(s: Seq<char>) -> Option<u16> {
    if s == "N"@ {
        Some(0)
    } else if s == "NNE"@ {
        Some(225)
    } else if s == "NE"@ {
        Some(450)
    } else if s == "ENE"@ {
        Some(675)
    } else if s == "E"@ {
        Some(900)
    } else if s == "ESE"@ {
        Some(1125)
    } else if s == "SE"@ {
        Some(1350)
    } else if s == "SSE"@ {
        Some(1575)
    } else if s == "S"@ {
        Some(1800)
    } else if s == "SSW"@ {
        Some(2025)
    } else if s == "SW"@ {
        Some(2250)
    } else if s == "WSW"@ {
        Some(2475)
    } else if s == "W"@ {
        Some(2700)
    } else if s == "WNW"@ {
        Some(2925)
    } else if s == "NW"@ {
        Some(3150)
    } else if s == "NNW"@ {
        Some(3375)
    } else {
        None
    }
}

/// The compass point `s` names, if any.
pub fn compass_exec(s: &str) -> (r: Option<u16>)
    ensures
        r == compass_spec(s@),
{
    if str_eq(s, "N") {
        Some(0)
    } else if str_eq(s, "NNE") {
        Some(225)
    } else if str_eq(s, "NE") {
        Some(450)
    } else if str_eq(s, "ENE") {
        Some(675)
    } else if str_eq(s, "E") {
        Some(900)
    } else if str_eq(s, "ESE") {
        Some(1125)
    } else if str_eq(s, "SE") {
        Some(1350)
    } else if str_eq(s, "SSE") {
        Some(1575)
    } else if str_eq(s, "S") {
        Some(1800)
    } else if str_eq(s, "SSW") {
        Some(2025)
    } else if str_eq(s, "SW") {
        Some(2250)
    } else if str_eq(s, "WSW") {
        Some(2475)
    } else if str_eq(s, "W") {
        Some(2700)
    } else if str_eq(s, "WNW") {
        Some(2925)
    } else if str_eq(s, "NW") {
        Some(3150)
    } else if str_eq(s, "NNW") {
        Some(3375)
    } else {
        None
    }
}

/// Reads a `roof:direction` tag given as text: trimmed and in capitals, a point
/// of the 16-point compass gives its direction in tenths of a degree; any other
/// text comes back (trimmed and in capitals) to be read as a number of degrees.
pub fn compass_direction(tag: &str) -> (r: Result<u16, String>)
    ensures
        ({
            let n = uppercased(trimmed(tag@));
            match compass_spec(n) {
                Some(d) => r == Ok::<u16, String>(d),
                None => r matches Err(s) && s@ == n,
            }
        }),
{
    let t = str_trim(tag);
    let upper = str_to_uppercase(t);
    match compass_exec(upper.as_str()) {
        Some(d) => Ok(d),
        None => Err(upper),
    }
}

/// What a `roof:direction` tag says, read from the first of its fields that is set:
/// the text (a compass point, or other text to be read as degrees), else the
/// `f32` degrees (as bits), else the integer degrees.
#[derive(Clone, Debug, PartialEq)]
pub enum DirectionTag {
    /// A point of the 16-point compass, in tenths of a degree.
    Compass(u16),
    /// Other text, trimmed and in capitals.
    Text(String),
    /// The bits of an `f32` number of degrees.
    FloatBits(u32),
    /// A whole number of degrees.
    Int(i64),
    /// No text or number is set.
    Missing,
}

/// Reads a `roof:direction` tag value: the text when there is one, else the float,
/// else the integer.
pub fn direction_tag(v: &MvtValue) -> (r: DirectionTag)
    ensures
        match v@.string_value {
            Some(s) => {
                let n = uppercased(trimmed(s));
                match compass_spec(n) {
                    Some(d) => r matches DirectionTag::Compass(x) && x == d,
                    None => r matches DirectionTag::Text(t) && t@ == n,
                }
            },
            None => match v.float_bits {
                Some(b) => r matches DirectionTag::FloatBits(x) && x == b,
                None => match v.int_value {
                    Some(i) => r matches DirectionTag::Int(x) && x == i,
                    None => r matches DirectionTag::Missing,
                },
            },
        },
{
    match &v.string_value {
        Some(s) => match compass_direction(s.as_str()) {
            Ok(d) => DirectionTag::Compass(d),
            Err(t) => DirectionTag::Text(t),
        },
        None => match v.float_bits {
            Some(b) => DirectionTag::FloatBits(b),
            None => match v.int_value {
                Some(i) => DirectionTag::Int(i),
                None => DirectionTag::Missing,
            },
        },
    }
}

/// How a roof is shaped.
#[derive(Clone, Copy, Debug, PartialEq, Eq, Structural)]
pub enum RoofKind {
    /// Sloped on all sides, the slopes as deep as the roof is high.
    Hipped,
    /// Steep lower slopes of a fixed depth.
    Mansard,
    /// Sloped up to a single peak.
    Pyramidal,
    Dome,
    /// A dome that bulges out before it closes.
    Onion,
    /// A single slope.
    Skillion,
    Flat,
}

/// The roof kind a `roof:shape` tag stands for.
pub open spec fn roof_kind_spec(s: Seq<char>) -> RoofKind {
    if s == "hipped"@ || s == "gabled"@ {
        RoofKind::Hipped
    } else if s == "mansard"@ || s == "gambrel"@ {
        RoofKind::Mansard
    } else if s == "pyramidal"@ || s == "tented"@ {
        RoofKind::Pyramidal
    } else if s == "dome"@ {
        RoofKind::Dome
    } else if s == "onion"@ {
        RoofKind::Onion
    } else if s == "skillion"@ {
        RoofKind::Skillion
    } else {
        RoofKind::Flat
    }
}

/// The roof kind a `roof:shape` tag stands for; unknown shapes are flat.
pub fn roof_kind(shape: &str) -> (k: RoofKind)
    ensures
        k == roof_kind_spec(shape@),
{
    if str_eq(shape, "hipped") || str_eq(shape, "gabled") {
        RoofKind::Hipped
    } else if str_eq(shape, "mansard") || str_eq(shape, "gambrel") {
        RoofKind::Mansard
    } else if str_eq(shape, "pyramidal") || str_eq(shape, "tented") {
        RoofKind::Pyramidal
    } else if str_eq(shape, "dome") {
        RoofKind::Dome
    } else if str_eq(shape, "onion") {
        RoofKind::Onion
    } else if str_eq(shape, "skillion") {
        RoofKind::Skillion
    } else {
        RoofKind::Flat
    }
}

/// Whether a `roof:shape` tag says the roof is flat (a roof of unknown height is
/// then taken to have no height at all).
pub fn is_flat_roof_tag(shape: &str) -> (b: bool)
    ensures
        b == (shape@ == "flat"@),
{
    str_eq(shape, "flat")
}

/// The Terrain-RGB code of a pixel: `r * 65536 + g * 256 + b`, the height in
/// decimetres above -10000 m.
pub open spec fn terrain_rgb_code(r: u8, g: u8, b: u8) -> int {
    r * 65536 + g * 256 + b
}

/// The Terrain-RGB code of the pixel at column `x`, row `y` of a heightmap.
pub fn height_code_at(img: &RgbaPixels, x: u32, y: u32) -> (c: u32)
    requires
        x < img.width,
        y < img.height,
        img.data@.len() == 4 * img.width * img.height,
    ensures
        ({
            let i = 4 * (y * img.width + x);
            c == terrain_rgb_code(img.data@[i], img.data@[i + 1], img.data@[i + 2])
        }),
{
    let w = img.width as usize;
    let h = img.height as usize;
    let len = img.data.len();
    proof {
        assert(4 * ((y as int) * (w as int) + (x as int)) + 3 < len) by (nonlinear_arith)
            requires
                x < w,
                y < h,
                len == 4 * w * h,
        ;
        assert((y as int) * (w as int) <= len) by (nonlinear_arith)
            requires
                y < h,
                len == 4 * w * h,
        ;
    }
    let i = 4 * ((y as usize) * w + (x as usize));
    let r = img.data[i] as u32;
    let g = img.data[i + 1] as u32;
    let b = img.data[i + 2] as u32;
    r * 65536 + g * 256 + b
}

} // verus!

verus! {

/// Whether `get_prop(keys, tags, key)` may be called.
pub fn get_prop_ok_exec(keys: &Vec<String>, tags: &Vec<u32>, key: &str) -> (b: bool)
    ensures
        b == get_prop_ok(keys@, tags@, key@),
{
    let key_idx = match find_first(keys, key) {
        Some(i) => i,
        None => {
            return true;
        },
    };
    assert(first_key(keys@, key@, key_idx as int));
    assert forall|ki: int| first_key(keys@, key@, ki) implies ki == key_idx by {
        if ki < key_idx {
            assert(keys@[ki]@ != key@);
        } else if ki > key_idx {
            assert(keys@[key_idx as int]@ != key@);
        }
    }
    let len = tags.len();
    if len % 2 == 0 || tags[len - 1] as usize != key_idx {
        return true;
    }
    let n_pairs = len / 2;
    let mut p: usize = 0;
    while p < n_pairs
        invariant
            n_pairs == tags@.len() / 2,
            tags@.len() <= usize::MAX,
            forall|ki: int| first_key(keys@, key@, ki) ==> ki == key_idx,
            forall|q: int| 0 <= q < p ==> #[trigger] pair_key(tags@, q) != key_idx,
        decreases n_pairs - p,
    {
        assert(2 * p + 1 < tags@.len()) by (nonlinear_arith)
            requires
                p < n_pairs,
                n_pairs == tags@.len() / 2,
        ;
        assert(pair_key(tags@, p as int) == tags@[2 * p]);
        if tags[2 * p] as usize == key_idx {
            assert(pair_key(tags@, p as int) == key_idx);
            return true;
        }
        p = p + 1;
    }
    proof {
        assert forall|q: int| 0 <= q && 2 * q + 1 < tags@.len() implies #[trigger] pair_key(tags@, q) != key_idx by {
            assert(q < n_pairs) by (nonlinear_arith)
                requires
                    0 <= q,
                    2 * q + 1 < tags@.len(),
                    n_pairs == tags@.len() / 2,
            ;
        }
    }
    false
}

/// Whether `is_tree(keys, values, tags)` may be called.
pub fn is_tree_ok_exec(keys: &Vec<String>, values: &Vec<String>, tags: &Vec<u32>) -> (b: bool)
    ensures
        b == is_tree_ok(keys@, values@, tags@),
{
    let n_chunks = tags.len() / 2 + tags.len() % 2;
    let mut p: usize = 0;
    while p < n_chunks
        invariant
            n_chunks == tags@.len() / 2 + tags@.len() % 2,
            tags@.len() <= usize::MAX,
            forall|q: int| 0 <= q < p ==> !#[trigger] tree_pair(keys@, values@, tags@, q),
            forall|q: int| 0 <= q < p ==> #[trigger] pair_readable(keys@, values@, tags@, q),
        decreases n_chunks - p,
    {
        assert(2 * p < tags@.len()) by (nonlinear_arith)
            requires
                p < n_chunks,
                n_chunks == tags@.len() / 2 + tags@.len() % 2,
        ;
        if 2 * p + 1 >= tags.len() {
            assert(!pair_readable(keys@, values@, tags@, p as int));
            return false;
        }
        let k = tags[2 * p] as usize;
        let v = tags[2 * p + 1] as usize;
        if k >= keys.len() || v >= values.len() {
            assert(!pair_readable(keys@, values@, tags@, p as int));
            return false;
        }
        if str_eq(keys[k].as_str(), "natural") {
            if str_eq(values[v].as_str(), "tree") {
                proof {
                    assert(tree_pair(keys@, values@, tags@, p as int));
                    assert forall|q: int|
                        0 <= q && 2 * q < tags@.len() && (forall|q2: int|
                            0 <= q2 < q ==> !#[trigger] tree_pair(keys@, values@, tags@, q2)) implies #[trigger] pair_readable(
                        keys@,
                        values@,
                        tags@,
                        q,
                    ) by {
                        if q > p {
                            assert(!tree_pair(keys@, values@, tags@, p as int));
                        }
                    }
                }
                return true;
            }
        }
        assert(pair_readable(keys@, values@, tags@, p as int));
        assert(!tree_pair(keys@, values@, tags@, p as int));
        p = p + 1;
    }
    proof {
        assert forall|q: int|
            0 <= q && 2 * q < tags@.len() && (forall|q2: int|
                0 <= q2 < q ==> !#[trigger] tree_pair(keys@, values@, tags@, q2)) implies #[trigger] pair_readable(
            keys@,
            values@,
            tags@,
            q,
        ) by {
            assert(q < n_chunks) by (nonlinear_arith)
                requires
                    0 <= q,
                    2 * q < tags@.len(),
                    n_chunks == tags@.len() / 2 + tags@.len() % 2,
            ;
        }
    }
    true
}

/// Whether `parse_osm_color(color)` may be called.
pub fn osm_color_ok_exec(color: &str) -> (b: bool)
    ensures
        b == osm_color_ok(color@, color.spec_bytes()),
{
    if named_color_exec(color).is_some() {
        return true;
    }
    let bytes = color.as_bytes();
    if !(bytes.len() == 7 && bytes[0] == 35) {
        return true;
    }
    color.is_char_boundary(1) && color.is_char_boundary(3) && color.is_char_boundary(5)
        && color.is_char_boundary(7)
}

/// The named colors of OSM color tags, in thousandths of red, green and blue: a
/// tag naming one of them gives that color, whatever else the tag looks like.
pub proof fn lemma_named_color_table(chars: Seq<char>, bytes: Seq<u8>)
    ensures
        chars == "white"@ ==> osm_color_spec(chars, bytes) == OsmColor::Permille(900, 900, 900),
        chars == "black"@ ==> osm_color_spec(chars, bytes) == OsmColor::Permille(100, 100, 100),
        chars == "gray"@ ==> osm_color_spec(chars, bytes) == OsmColor::Permille(500, 500, 500),
        chars == "grey"@ ==> osm_color_spec(chars, bytes) == OsmColor::Permille(500, 500, 500),
        chars == "light_gray"@ ==> osm_color_spec(chars, bytes) == OsmColor::Permille(700, 700, 700),
        chars == "red"@ ==> osm_color_spec(chars, bytes) == OsmColor::Permille(800, 100, 100),
        chars == "green"@ ==> osm_color_spec(chars, bytes) == OsmColor::Permille(100, 600, 100),
        chars == "blue"@ ==> osm_color_spec(chars, bytes) == OsmColor::Permille(200, 200, 800),
        chars == "yellow"@ ==> osm_color_spec(chars, bytes) == OsmColor::Permille(900, 900, 100),
        chars == "brown"@ ==> osm_color_spec(chars, bytes) == OsmColor::Permille(400, 200, 100),
        chars == "orange"@ ==> osm_color_spec(chars, bytes) == OsmColor::Permille(900, 500, 100),
        chars == "beige"@ ==> osm_color_spec(chars, bytes) == OsmColor::Permille(960, 960, 860),
        chars == "brick_red"@ ==> osm_color_spec(chars, bytes) == OsmColor::Permille(800, 250, 150),
        chars == "roof_default"@ ==> osm_color_spec(chars, bytes) == OsmColor::Permille(550, 200, 200),
        chars == "default"@ ==> osm_color_spec(chars, bytes) == OsmColor::Permille(850, 850, 850),
{
    reveal_strlit("white");
    reveal_strlit("black");
    reveal_strlit("gray");
    reveal_strlit("grey");
    reveal_strlit("light_gray");
    reveal_strlit("red");
    reveal_strlit("green");
    reveal_strlit("blue");
    reveal_strlit("yellow");
    reveal_strlit("brown");
    reveal_strlit("orange");
    reveal_strlit("beige");
    reveal_strlit("brick_red");
    reveal_strlit("roof_default");
    reveal_strlit("default");
    if chars == "white"@ {

    }
    if chars == "black"@ {
        assert("black"@[0] != "white"@[0]);
    }
    if chars == "gray"@ {
        assert("gray"@.len() != "white"@.len());
        assert("gray"@.len() != "black"@.len());
    }
    if chars == "grey"@ {
        assert("grey"@.len() != "white"@.len());
        assert("grey"@.len() != "black"@.len());
        assert("grey"@[2] != "gray"@[2]);
    }
    if chars == "light_gray"@ {
        assert("light_gray"@.len() != "white"@.len());
        assert("light_gray"@.len() != "black"@.len());
        assert("light_gray"@.len() != "gray"@.len());
        assert("light_gray"@.len() != "grey"@.len());
    }
    if chars == "red"@ {
        assert("red"@.len() != "white"@.len());
        assert("red"@.len() != "black"@.len());
        assert("red"@.len() != "gray"@.len());
        assert("red"@.len() != "grey"@.len());
        assert("red"@.len() != "light_gray"@.len());
    }
    if chars == "green"@ {
        assert("green"@[0] != "white"@[0]);
        assert("green"@[0] != "black"@[0]);
        assert("green"@.len() != "gray"@.len());
        assert("green"@.len() != "grey"@.len());
        assert("green"@.len() != "light_gray"@.len());
        assert("green"@.len() != "red"@.len());
    }
    if chars == "blue"@ {
        assert("blue"@.len() != "white"@.len());
        assert("blue"@.len() != "black"@.len());
        assert("blue"@[0] != "gray"@[0]);
        assert("blue"@[0] != "grey"@[0]);
        assert("blue"@.len() != "light_gray"@.len());
        assert("blue"@.len() != "red"@.len());
        assert("blue"@.len() != "green"@.len());
    }
    if chars == "yellow"@ {
        assert("yellow"@.len() != "white"@.len());
        assert("yellow"@.len() != "black"@.len());
        assert("yellow"@.len() != "gray"@.len());
        assert("yellow"@.len() != "grey"@.len());
        assert("yellow"@.len() != "light_gray"@.len());
        assert("yellow"@.len() != "red"@.len());
        assert("yellow"@.len() != "green"@.len());
        assert("yellow"@.len() != "blue"@.len());
    }
    if chars == "brown"@ {
        assert("brown"@[0] != "white"@[0]);
        assert("brown"@[1] != "black"@[1]);
        assert("brown"@.len() != "gray"@.len());
        assert("brown"@.len() != "grey"@.len());
        assert("brown"@.len() != "light_gray"@.len());
        assert("brown"@.len() != "red"@.len());
        assert("brown"@[0] != "green"@[0]);
        assert("brown"@.len() != "blue"@.len());
        assert("brown"@.len() != "yellow"@.len());
    }
    if chars == "orange"@ {
        assert("orange"@.len() != "white"@.len());
        assert("orange"@.len() != "black"@.len());
        assert("orange"@.len() != "gray"@.len());
        assert("orange"@.len() != "grey"@.len());
        assert("orange"@.len() != "light_gray"@.len());
        assert("orange"@.len() != "red"@.len());
        assert("orange"@.len() != "green"@.len());
        assert("orange"@.len() != "blue"@.len());
        assert("orange"@[0] != "yellow"@[0]);
        assert("orange"@.len() != "brown"@.len());
    }
    if chars == "beige"@ {
        assert("beige"@[0] != "white"@[0]);
        assert("beige"@[1] != "black"@[1]);
        assert("beige"@.len() != "gray"@.len());
        assert("beige"@.len() != "grey"@.len());
        assert("beige"@.len() != "light_gray"@.len());
        assert("beige"@.len() != "red"@.len());
        assert("beige"@[0] != "green"@[0]);
        assert("beige"@.len() != "blue"@.len());
        assert("beige"@.len() != "yellow"@.len());
        assert("beige"@[1] != "brown"@[1]);
        assert("beige"@.len() != "orange"@.len());
    }
    if chars == "brick_red"@ {
        assert("brick_red"@.len() != "white"@.len());
        assert("brick_red"@.len() != "black"@.len());
        assert("brick_red"@.len() != "gray"@.len());
        assert("brick_red"@.len() != "grey"@.len());
        assert("brick_red"@.len() != "light_gray"@.len());
        assert("brick_red"@.len() != "red"@.len());
        assert("brick_red"@.len() != "green"@.len());
        assert("brick_red"@.len() != "blue"@.len());
        assert("brick_red"@.len() != "yellow"@.len());
        assert("brick_red"@.len() != "brown"@.len());
        assert("brick_red"@.len() != "orange"@.len());
        assert("brick_red"@.len() != "beige"@.len());
    }
    if chars == "roof_default"@ {
        assert("roof_default"@.len() != "white"@.len());
        assert("roof_default"@.len() != "black"@.len());
        assert("roof_default"@.len() != "gray"@.len());
        assert("roof_default"@.len() != "grey"@.len());
        assert("roof_default"@.len() != "light_gray"@.len());
        assert("roof_default"@.len() != "red"@.len());
        assert("roof_default"@.len() != "green"@.len());
        assert("roof_default"@.len() != "blue"@.len());
        assert("roof_default"@.len() != "yellow"@.len());
        assert("roof_default"@.len() != "brown"@.len());
        assert("roof_default"@.len() != "orange"@.len());
        assert("roof_default"@.len() != "beige"@.len());
        assert("roof_default"@.len() != "brick_red"@.len());
    }
    if chars == "default"@ {
        assert("default"@.len() != "white"@.len());
        assert("default"@.len() != "black"@.len());
        assert("default"@.len() != "gray"@.len());
        assert("default"@.len() != "grey"@.len());
        assert("default"@.len() != "light_gray"@.len());
        assert("default"@.len() != "red"@.len());
        assert("default"@.len() != "green"@.len());
        assert("default"@.len() != "blue"@.len());
        assert("default"@.len() != "yellow"@.len());
        assert("default"@.len() != "brown"@.len());
        assert("default"@.len() != "orange"@.len());
        assert("default"@.len() != "beige"@.len());
        assert("default"@.len() != "brick_red"@.len());
        assert("default"@.len() != "roof_default"@.len());
    }
}

/// The points of the 16-point compass, clockwise from north.
pub open spec fn compass_points() -> Seq<Seq<char>> {
    seq!["N"@, "NNE"@, "NE"@, "ENE"@, "E"@, "ESE"@, "SE"@, "SSE"@, "S"@, "SSW"@, "SW"@, "WSW"@, "W"@, "WNW"@, "NW"@, "NNW"@]
}

/// The `k`-th point of the 16-point compass, counted clockwise from north, lies
/// `22.5 * k` degrees clockwise from north; text that names no compass point
/// gives no direction.
pub proof fn lemma_compass_points_clockwise(s: Seq<char>)
    ensures
        forall|k: int| 0 <= k < 16 ==> compass_spec(#[trigger] compass_points()[k]) == Some((225 * k) as u16),
        !compass_points().contains(s) ==> compass_spec(s) is None,
{
    reveal_strlit("N");
    reveal_strlit("NNE");
    reveal_strlit("NE");
    reveal_strlit("ENE");
    reveal_strlit("E");
    reveal_strlit("ESE");
    reveal_strlit("SE");
    reveal_strlit("SSE");
    reveal_strlit("S");
    reveal_strlit("SSW");
    reveal_strlit("SW");
    reveal_strlit("WSW");
    reveal_strlit("W");
    reveal_strlit("WNW");
    reveal_strlit("NW");
    reveal_strlit("NNW");
    assert forall|k: int| 0 <= k < 16 implies compass_spec(#[trigger] compass_points()[k]) == Some((225 * k) as u16) by {
        if k == 0 {
            assert(compass_points()[k] == "N"@);

        }
        if k == 1 {
            assert(compass_points()[k] == "NNE"@);
            assert("NNE"@.len() != "N"@.len());
        }
        if k == 2 {
            assert(compass_points()[k] == "NE"@);
            assert("NE"@.len() != "N"@.len());
            assert("NE"@.len() != "NNE"@.len());
        }
        if k == 3 {
            assert(compass_points()[k] == "ENE"@);
            assert("ENE"@.len() != "N"@.len());
            assert("ENE"@[0] != "NNE"@[0]);
            assert("ENE"@.len() != "NE"@.len());
        }
        if k == 4 {
            assert(compass_points()[k] == "E"@);
            assert("E"@[0] != "N"@[0]);
            assert("E"@.len() != "NNE"@.len());
            assert("E"@.len() != "NE"@.len());
            assert("E"@.len() != "ENE"@.len());
        }
        if k == 5 {
            assert(compass_points()[k] == "ESE"@);
            assert("ESE"@.len() != "N"@.len());
            assert("ESE"@[0] != "NNE"@[0]);
            assert("ESE"@.len() != "NE"@.len());
            assert("ESE"@[1] != "ENE"@[1]);
            assert("ESE"@.len() != "E"@.len());
        }
        if k == 6 {
            assert(compass_points()[k] == "SE"@);
            assert("SE"@.len() != "N"@.len());
            assert("SE"@.len() != "NNE"@.len());
            assert("SE"@[0] != "NE"@[0]);
            assert("SE"@.len() != "ENE"@.len());
            assert("SE"@.len() != "E"@.len());
            assert("SE"@.len() != "ESE"@.len());
        }
        if k == 7 {
            assert(compass_points()[k] == "SSE"@);
            assert("SSE"@.len() != "N"@.len());
            assert("SSE"@[0] != "NNE"@[0]);
            assert("SSE"@.len() != "NE"@.len());
            assert("SSE"@[0] != "ENE"@[0]);
            assert("SSE"@.len() != "E"@.len());
            assert("SSE"@[0] != "ESE"@[0]);
            assert("SSE"@.len() != "SE"@.len());
        }
        if k == 8 {
            assert(compass_points()[k] == "S"@);
            assert("S"@[0] != "N"@[0]);
            assert("S"@.len() != "NNE"@.len());
            assert("S"@.len() != "NE"@.len());
            assert("S"@.len() != "ENE"@.len());
            assert("S"@[0] != "E"@[0]);
            assert("S"@.len() != "ESE"@.len());
            assert("S"@.len() != "SE"@.len());
            assert("S"@.len() != "SSE"@.len());
        }
        if k == 9 {
            assert(compass_points()[k] == "SSW"@);
            assert("SSW"@.len() != "N"@.len());
            assert("SSW"@[0] != "NNE"@[0]);
            assert("SSW"@.len() != "NE"@.len());
            assert("SSW"@[0] != "ENE"@[0]);
            assert("SSW"@.len() != "E"@.len());
            assert("SSW"@[0] != "ESE"@[0]);
            assert("SSW"@.len() != "SE"@.len());
            assert("SSW"@[2] != "SSE"@[2]);
            assert("SSW"@.len() != "S"@.len());
        }
        if k == 10 {
            assert(compass_points()[k] == "SW"@);
            assert("SW"@.len() != "N"@.len());
            assert("SW"@.len() != "NNE"@.len());
            assert("SW"@[0] != "NE"@[0]);
            assert("SW"@.len() != "ENE"@.len());
            assert("SW"@.len() != "E"@.len());
            assert("SW"@.len() != "ESE"@.len());
            assert("SW"@[1] != "SE"@[1]);
            assert("SW"@.len() != "SSE"@.len());
            assert("SW"@.len() != "S"@.len());
            assert("SW"@.len() != "SSW"@.len());
        }
        if k == 11 {
            assert(compass_points()[k] == "WSW"@);
            assert("WSW"@.len() != "N"@.len());
            assert("WSW"@[0] != "NNE"@[0]);
            assert("WSW"@.len() != "NE"@.len());
            assert("WSW"@[0] != "ENE"@[0]);
            assert("WSW"@.len() != "E"@.len());
            assert("WSW"@[0] != "ESE"@[0]);
            assert("WSW"@.len() != "SE"@.len());
            assert("WSW"@[0] != "SSE"@[0]);
            assert("WSW"@.len() != "S"@.len());
            assert("WSW"@[0] != "SSW"@[0]);
            assert("WSW"@.len() != "SW"@.len());
        }
        if k == 12 {
            assert(compass_points()[k] == "W"@);
            assert("W"@[0] != "N"@[0]);
            assert("W"@.len() != "NNE"@.len());
            assert("W"@.len() != "NE"@.len());
            assert("W"@.len() != "ENE"@.len());
            assert("W"@[0] != "E"@[0]);
            assert("W"@.len() != "ESE"@.len());
            assert("W"@.len() != "SE"@.len());
            assert("W"@.len() != "SSE"@.len());
            assert("W"@[0] != "S"@[0]);
            assert("W"@.len() != "SSW"@.len());
            assert("W"@.len() != "SW"@.len());
            assert("W"@.len() != "WSW"@.len());
        }
        if k == 13 {
            assert(compass_points()[k] == "WNW"@);
            assert("WNW"@.len() != "N"@.len());
            assert("WNW"@[0] != "NNE"@[0]);
            assert("WNW"@.len() != "NE"@.len());
            assert("WNW"@[0] != "ENE"@[0]);
            assert("WNW"@.len() != "E"@.len());
            assert("WNW"@[0] != "ESE"@[0]);
            assert("WNW"@.len() != "SE"@.len());
            assert("WNW"@[0] != "SSE"@[0]);
            assert("WNW"@.len() != "S"@.len());
            assert("WNW"@[0] != "SSW"@[0]);
            assert("WNW"@.len() != "SW"@.len());
            assert("WNW"@[1] != "WSW"@[1]);
            assert("WNW"@.len() != "W"@.len());
        }
        if k == 14 {
            assert(compass_points()[k] == "NW"@);
            assert("NW"@.len() != "N"@.len());
            assert("NW"@.len() != "NNE"@.len());
            assert("NW"@[1] != "NE"@[1]);
            assert("NW"@.len() != "ENE"@.len());
            assert("NW"@.len() != "E"@.len());
            assert("NW"@.len() != "ESE"@.len());
            assert("NW"@[0] != "SE"@[0]);
            assert("NW"@.len() != "SSE"@.len());
            assert("NW"@.len() != "S"@.len());
            assert("NW"@.len() != "SSW"@.len());
            assert("NW"@[0] != "SW"@[0]);
            assert("NW"@.len() != "WSW"@.len());
            assert("NW"@.len() != "W"@.len());
            assert("NW"@.len() != "WNW"@.len());
        }
        if k == 15 {
            assert(compass_points()[k] == "NNW"@);
            assert("NNW"@.len() != "N"@.len());
            assert("NNW"@[2] != "NNE"@[2]);
            assert("NNW"@.len() != "NE"@.len());
            assert("NNW"@[0] != "ENE"@[0]);
            assert("NNW"@.len() != "E"@.len());
            assert("NNW"@[0] != "ESE"@[0]);
            assert("NNW"@.len() != "SE"@.len());
            assert("NNW"@[0] != "SSE"@[0]);
            assert("NNW"@.len() != "S"@.len());
            assert("NNW"@[0] != "SSW"@[0]);
            assert("NNW"@.len() != "SW"@.len());
            assert("NNW"@[0] != "WSW"@[0]);
            assert("NNW"@.len() != "W"@.len());
            assert("NNW"@[0] != "WNW"@[0]);
            assert("NNW"@.len() != "NW"@.len());
        }
    }
    if compass_spec(s) is Some {
        if s == "N"@ {
            assert(compass_points()[0] == s);
        }
        if s == "NNE"@ {
            assert(compass_points()[1] == s);
        }
        if s == "NE"@ {
            assert(compass_points()[2] == s);
        }
        if s == "ENE"@ {
            assert(compass_points()[3] == s);
        }
        if s == "E"@ {
            assert(compass_points()[4] == s);
        }
        if s == "ESE"@ {
            assert(compass_points()[5] == s);
        }
        if s == "SE"@ {
            assert(compass_points()[6] == s);
        }
        if s == "SSE"@ {
            assert(compass_points()[7] == s);
        }
        if s == "S"@ {
            assert(compass_points()[8] == s);
        }
        if s == "SSW"@ {
            assert(compass_points()[9] == s);
        }
        if s == "SW"@ {
            assert(compass_points()[10] == s);
        }
        if s == "WSW"@ {
            assert(compass_points()[11] == s);
        }
        if s == "W"@ {
            assert(compass_points()[12] == s);
        }
        if s == "WNW"@ {
            assert(compass_points()[13] == s);
        }
        if s == "NW"@ {
            assert(compass_points()[14] == s);
        }
        if s == "NNW"@ {
            assert(compass_points()[15] == s);
        }
    }
}

/// The roof kinds of the `roof:shape` tags: each shape named here gives its kind,
/// and every other shape is drawn flat.
pub proof fn lemma_roof_kind_table(shape: Seq<char>)
    ensures
        shape == "hipped"@ ==> roof_kind_spec(shape) == RoofKind::Hipped,
        shape == "gabled"@ ==> roof_kind_spec(shape) == RoofKind::Hipped,
        shape == "mansard"@ ==> roof_kind_spec(shape) == RoofKind::Mansard,
        shape == "gambrel"@ ==> roof_kind_spec(shape) == RoofKind::Mansard,
        shape == "pyramidal"@ ==> roof_kind_spec(shape) == RoofKind::Pyramidal,
        shape == "tented"@ ==> roof_kind_spec(shape) == RoofKind::Pyramidal,
        shape == "dome"@ ==> roof_kind_spec(shape) == RoofKind::Dome,
        shape == "onion"@ ==> roof_kind_spec(shape) == RoofKind::Onion,
        shape == "skillion"@ ==> roof_kind_spec(shape) == RoofKind::Skillion,
        shape == "flat"@ ==> roof_kind_spec(shape) == RoofKind::Flat,
        shape != "hipped"@ && shape != "gabled"@ && shape != "mansard"@ && shape != "gambrel"@ && shape != "pyramidal"@ && shape != "tented"@ && shape != "dome"@ && shape != "onion"@ && shape != "skillion"@ ==> roof_kind_spec(shape) == RoofKind::Flat,
{
    reveal_strlit("hipped");
    reveal_strlit("gabled");
    reveal_strlit("mansard");
    reveal_strlit("gambrel");
    reveal_strlit("pyramidal");
    reveal_strlit("tented");
    reveal_strlit("dome");
    reveal_strlit("onion");
    reveal_strlit("skillion");
    reveal_strlit("flat");
    if shape == "hipped"@ {

    }
    if shape == "gabled"@ {
        assert("gabled"@[0] != "hipped"@[0]);
    }
    if shape == "mansard"@ {
        assert("mansard"@.len() != "hipped"@.len());
        assert("mansard"@.len() != "gabled"@.len());
    }
    if shape == "gambrel"@ {
        assert("gambrel"@.len() != "hipped"@.len());
        assert("gambrel"@.len() != "gabled"@.len());
        assert("gambrel"@[0] != "mansard"@[0]);
    }
    if shape == "pyramidal"@ {
        assert("pyramidal"@.len() != "hipped"@.len());
        assert("pyramidal"@.len() != "gabled"@.len());
        assert("pyramidal"@.len() != "mansard"@.len());
        assert("pyramidal"@.len() != "gambrel"@.len());
    }
    if shape == "tented"@ {
        assert("tented"@[0] != "hipped"@[0]);
        assert("tented"@[0] != "gabled"@[0]);
        assert("tented"@.len() != "mansard"@.len());
        assert("tented"@.len() != "gambrel"@.len());
        assert("tented"@.len() != "pyramidal"@.len());
    }
    if shape == "dome"@ {
        assert("dome"@.len() != "hipped"@.len());
        assert("dome"@.len() != "gabled"@.len());
        assert("dome"@.len() != "mansard"@.len());
        assert("dome"@.len() != "gambrel"@.len());
        assert("dome"@.len() != "pyramidal"@.len());
        assert("dome"@.len() != "tented"@.len());
    }
    if shape == "onion"@ {
        assert("onion"@.len() != "hipped"@.len());
        assert("onion"@.len() != "gabled"@.len());
        assert("onion"@.len() != "mansard"@.len());
        assert("onion"@.len() != "gambrel"@.len());
        assert("onion"@.len() != "pyramidal"@.len());
        assert("onion"@.len() != "tented"@.len());
        assert("onion"@.len() != "dome"@.len());
    }
    if shape == "skillion"@ {
        assert("skillion"@.len() != "hipped"@.len());
        assert("skillion"@.len() != "gabled"@.len());
        assert("skillion"@.len() != "mansard"@.len());
        assert("skillion"@.len() != "gambrel"@.len());
        assert("skillion"@.len() != "pyramidal"@.len());
        assert("skillion"@.len() != "tented"@.len());
        assert("skillion"@.len() != "dome"@.len());
        assert("skillion"@.len() != "onion"@.len());
    }
    if shape == "flat"@ {
        assert("flat"@.len() != "hipped"@.len());
        assert("flat"@.len() != "gabled"@.len());
        assert("flat"@.len() != "mansard"@.len());
        assert("flat"@.len() != "gambrel"@.len());
        assert("flat"@.len() != "pyramidal"@.len());
        assert("flat"@.len() != "tented"@.len());
        assert("flat"@[0] != "dome"@[0]);
        assert("flat"@.len() != "onion"@.len());
        assert("flat"@.len() != "skillion"@.len());
    }
}

} // verus!
