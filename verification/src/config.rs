//! The settings that outlive a session: recently opened statements, the
//! statement in use, and the colour of each category.
use vstd::prelude::*;

verus! {

/// A colour as egui stores it: red, green, blue and alpha, the colour
/// channels premultiplied by alpha.
#[derive(Clone, Copy, Debug, PartialEq, Eq, Structural)]
pub struct Color {
    pub r: u8,
    pub g: u8,
    pub b: u8,
    pub a: u8,
}

/// The character is a hexadecimal digit.
pub open spec fn is_hex_digit(c: char) -> bool {
    let u = c as u32;
    (0x30 <= u <= 0x39) || (0x41 <= u <= 0x46) || (0x61 <= u <= 0x66)
}

/// The value of a hexadecimal digit.
pub open spec fn hex_value(c: char) -> int {
    let u = c as u32;
    if 0x30 <= u <= 0x39 {
        u - 0x30
    } else if 0x41 <= u <= 0x46 {
        u - 0x41 + 10
    } else {
        u - 0x61 + 10
    }
}

/// The text is `#` followed by six hexadecimal digits.
pub open spec fn is_hex6_color(s: Seq<char>) -> bool {
    &&& s.len() == 7
    &&& s[0] == '#'
    &&& forall|i: int| 1 <= i < 7 ==> is_hex_digit(#[trigger] s[i])
}

/// The byte that two hexadecimal digits spell.
pub open spec fn hex_byte(hi: char, lo: char) -> u8 {
    (hex_value(hi) * 16 + hex_value(lo)) as u8
}

/// The opaque colour that `#RRGGBB` spells.
pub open spec fn hex6_color(s: Seq<char>) -> Color {
    Color { r: hex_byte(s[1], s[2]), g: hex_byte(s[3], s[4]), b: hex_byte(s[5], s[6]), a: 255 }
}

/// What egui's `Color32::from_hex` makes of a text, `None` where it refuses it.
pub uninterp spec fn parsed_hex_color(hex: Seq<char>) -> Option<Color>;

/// Calls egui's `Color32::from_hex` and returns the four bytes of the colour.
///
/// Claimed of it: the result is a function of the text alone, and for
/// `#` followed by six hexadecimal digits it is the opaque colour those
/// digits spell (egui parses them as one `u32` and builds the colour with
/// `Color32::from_rgb`, whose alpha is 255). Nothing is claimed of the
/// three-, four- and eight-digit forms it also accepts.
#[verifier::external_body]
fn color_from_hex(hex: &str) -> (c: Option<Color>)
    ensures
        c == parsed_hex_color(hex@),
        is_hex6_color(hex@) ==> c == Some(hex6_color(hex@)),
{
    match egui::Color32::from_hex(hex) {
        Ok(color) => {
            let [r, g, b, a] = color.to_array();
            Some(Color { r, g, b, a })
        },
        Err(_) => None,
    }
}

/// The colour of a palette entry written as `#RRGGBB`.
fn palette_color(hex: &str) -> (c: Color)
    requires
        is_hex6_color(hex@),
    ensures
        c == hex6_color(hex@),
{
    match color_from_hex(hex) {
        Some(c) => c,
        None => Color { r: 0, g: 0, b: 0, a: 0 },
    }
}

/// The settings of the application.
#[derive(Clone, Debug, PartialEq, Eq)]
pub struct Config {
    /// The statements opened before, the latest first.
    pub recents: Vec<String>,
    /// The statement in use.
    pub statement_path: Option<String>,
    /// The colour of each category.
    pub categories: Vec<(String, Color)>,
}

/// The categories and colours a category list holds.
pub open spec fn category_entries(v: Seq<(String, Color)>) -> Seq<(Seq<char>, Color)> {
    v.map_values(|e: (String, Color)| (e.0@, e.1))
}

/// An opaque colour.
pub open spec fn opaque(r: u8, g: u8, b: u8) -> Color {
    Color { r, g, b, a: 255 }
}

/// The categories a fresh installation starts with, and their colours.
pub open spec fn default_categories() -> Seq<(Seq<char>, Color)> {
    seq![
        ("Salary"@, opaque(0x5B, 0x64, 0x3E)),
        ("Pocket Money"@, opaque(0x31, 0x43, 0x50)),
        ("Mobile"@, opaque(0xC8, 0x98, 0x39)),
        ("Clothes"@, opaque(0xAB, 0x5E, 0x16)),
        ("Personal Care"@, opaque(0x7B, 0x53, 0x3B)),
        ("Goodwill"@, opaque(0x79, 0x23, 0x18)),
        ("Fuel"@, opaque(0x44, 0x72, 0x4F)),
        ("Food"@, opaque(0x4B, 0x82, 0x99)),
        ("Bank"@, opaque(0x99, 0xBF, 0xDF)),
    ]
}

/// Appends a palette entry.
fn push_category(categories: &mut Vec<(String, Color)>, name: &str, hex: &str)
    requires
        is_hex6_color(hex@),
    ensures
        category_entries(final(categories)@) == category_entries(old(categories)@).push(
            (name@, hex6_color(hex@)),
        ),
{
    let color = palette_color(hex);
    categories.push((String::from_str(name), color));
    assert(category_entries(categories@) =~= category_entries(old(categories)@).push(
        (name@, hex6_color(hex@)),
    ));
}

impl Default for Config {
    /// No recent statements, none in use, and the standard palette.
    fn default() -> (c: Self)
        ensures
            c.recents@.len() == 0,
            c.statement_path is None,
            category_entries(c.categories@) == default_categories(),
    {
        let mut categories: Vec<(String, Color)> = Vec::new();
        proof {
            reveal_strlit("#5B643E");
            reveal_strlit("#314350");
            reveal_strlit("#C89839");
            reveal_strlit("#AB5E16");
            reveal_strlit("#7B533B");
            reveal_strlit("#792318");
            reveal_strlit("#44724F");
            reveal_strlit("#4B8299");
            reveal_strlit("#99BFDF");
        }
        push_category(&mut categories, "Salary", "#5B643E");
        push_category(&mut categories, "Pocket Money", "#314350");
        push_category(&mut categories, "Mobile", "#C89839");
        push_category(&mut categories, "Clothes", "#AB5E16");
        push_category(&mut categories, "Personal Care", "#7B533B");
        push_category(&mut categories, "Goodwill", "#792318");
        push_category(&mut categories, "Fuel", "#44724F");
        push_category(&mut categories, "Food", "#4B8299");
        push_category(&mut categories, "Bank", "#99BFDF");
        assert(category_entries(categories@) =~= default_categories());
        Config { recents: Vec::new(), statement_path: None, categories }
    }
}

} // verus!
