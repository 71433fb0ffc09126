//! Reading a color list: comma-separated hex colors, as they arrive in a
//! request.

use crate::color_spaces::RGBColor;
use crate::layout::PaletteError;
use vstd::prelude::*;

verus! {

/// What `csv` reads from a text without a header row: the fields of all its
/// records in order, or `None` where it reports an error.
pub uninterp spec fn csv_fields(text: Seq<char>) -> Option<Seq<Seq<char>>>;

/// What `hex_color` parses from a token: red, green and blue, or `None`
/// where it reports an error.
pub uninterp spec fn hex_color_of(token: Seq<char>) -> Option<(u8, u8, u8)>;

/// The characters of each string.
pub open spec fn fields_view(fields: Seq<String>) -> Seq<Seq<char>> {
    Seq::new(fields.len(), |i: int| fields[i]@)
}

/// `csv::Reader::records` on a reader without headers over the text: every
/// field of every record in order, or `None` at the first record that the
/// reader reports as an error.
#[verifier::external_body]
fn read_csv_fields(text: &str) -> (res: Option<Vec<String>>)
    ensures
        res is Some <==> csv_fields(text@) is Some,
        res is Some ==> csv_fields(text@) == Some(fields_view(res->Some_0@)),
{
    let mut rdr = csv::ReaderBuilder::new().has_headers(false).from_reader(text.as_bytes());
    let mut fields: Vec<String> = Vec::new();
    for result in rdr.records() {
        match result {
            Ok(record) => fields.extend(record.iter().map(String::from)),
            Err(_) => return None,
        }
    }
    Some(fields)
}

/// `HexColor::from_str`: the red, green and blue of the parsed color, or
/// `None` where parsing fails.
#[verifier::external_body]
fn parse_hex_color(token: &str) -> (res: Option<(u8, u8, u8)>)
    ensures
        res == hex_color_of(token@),
{
    match token.parse::<hex_color::HexColor>() {
        Ok(color) => Some((color.r, color.g, color.b)),
        Err(_) => None,
    }
}

/// Whether every token parses as a hex color.
pub open spec fn all_tokens_parse(tokens: Seq<Seq<char>>) -> bool {
    forall|i: int| 0 <= i < tokens.len() ==> hex_color_of(#[trigger] tokens[i]) is Some
}

/// The colors that the tokens parse to, in their order.
pub open spec fn token_colors(tokens: Seq<Seq<char>>) -> Seq<RGBColor> {
    Seq::new(
        tokens.len(),
        |i: int|
            RGBColor {
                r: hex_color_of(tokens[i])->Some_0.0,
                g: hex_color_of(tokens[i])->Some_0.1,
                b: hex_color_of(tokens[i])->Some_0.2,
            },
    )
}

/// What a list of tokens yields: their colors, or the refusal of the list
/// where a token does not parse.
pub open spec fn colors_outcome(res: Result<Vec<RGBColor>, PaletteError>, tokens: Seq<Seq<char>>) -> bool {
    if all_tokens_parse(tokens) {
        res is Ok && res->Ok_0@ == token_colors(tokens)
    } else {
        res is Err && res->Err_0 == PaletteError::MalformedColorInput
    }
}

/// The colors of a list of tokens; one token that is no hex color refuses
/// the whole list.
pub fn colors_from_tokens(tokens: &Vec<String>) -> (res: Result<Vec<RGBColor>, PaletteError>)
    ensures
        colors_outcome(res, fields_view(tokens@)),
{
    let ghost views = fields_view(tokens@);
    let mut colors: Vec<RGBColor> = Vec::new();
    let mut i: usize = 0;
    while i < tokens.len()
        invariant
            i <= tokens.len(),
            views == fields_view(tokens@),
            colors.len() == i,
            forall|m: int| 0 <= m < i ==> hex_color_of(#[trigger] views[m]) is Some,
            forall|m: int| 0 <= m < i ==> colors@[m] == token_colors(views)[m],
        decreases tokens.len() - i,
    {
        assert(views[i as int] == tokens@[i as int]@);
        match parse_hex_color(tokens[i].as_str()) {
            Some(rgb) => {
                colors.push(RGBColor { r: rgb.0, g: rgb.1, b: rgb.2 });
            },
            None => {
                return Err(PaletteError::MalformedColorInput);
            },
        }
        i = i + 1;
    }
    assert(colors@ =~= token_colors(views));
    Ok(colors)
}

/// The colors of a comma-separated list of hex colors. A text that is no
/// well-formed list, or that holds a token that is no hex color, is refused.
pub fn parse_color_list(text: &str) -> (res: Result<Vec<RGBColor>, PaletteError>)
    ensures
        match csv_fields(text@) {
            Some(tokens) => colors_outcome(res, tokens),
            None => res is Err && res->Err_0 == PaletteError::MalformedColorInput,
        },
{
    match read_csv_fields(text) {
        Some(tokens) => colors_from_tokens(&tokens),
        None => Err(PaletteError::MalformedColorInput),
    }
}

} // verus!
