//! Semantic tokens: the server's relative encoding decoded into absolute
//! positions, named by the legend it announced, and styled for drawing.

use vstd::prelude::*;
use crate::lsp::json::{as_array, as_u64, get, lemma_models, models, Json, JsonValue};
use crate::lsp::types::{Rgb, SemanticModifiers, SemanticToken, TokenView, semantic_modifiers_none};
use crate::text::{owned, str_eq};

verus! {

/// A number, 0 when the value is not a non-negative integer.
pub open spec fn u64_or_zero(j: Json) -> u64 {
    match as_u64(j) {
        Some(n) => n,
        None => 0,
    }
}

/// Sets the modifier a legend name stands for; unknown names change
/// nothing.
pub open spec fn apply_modifier(m: SemanticModifiers, name: Seq<char>) -> SemanticModifiers {
    if name == "declaration"@ {
        SemanticModifiers { declaration: true, ..m }
    } else if name == "definition"@ {
        SemanticModifiers { definition: true, ..m }
    } else if name == "readonly"@ {
        SemanticModifiers { readonly: true, ..m }
    } else if name == "static"@ {
        SemanticModifiers { is_static: true, ..m }
    } else if name == "deprecated"@ {
        SemanticModifiers { deprecated: true, ..m }
    } else if name == "abstract"@ {
        SemanticModifiers { is_abstract: true, ..m }
    } else if name == "async"@ {
        SemanticModifiers { is_async: true, ..m }
    } else if name == "modification"@ {
        SemanticModifiers { modification: true, ..m }
    } else if name == "documentation"@ {
        SemanticModifiers { documentation: true, ..m }
    } else if name == "defaultLibrary"@ {
        SemanticModifiers { default_library: true, ..m }
    } else {
        m
    }
}

/// Whether bit `k` of the mask is set, the shift taken modulo 32.
pub open spec fn mask_bit(mask: u32, k: int) -> bool {
    mask & 1u32.wrapping_shl(k as u32) != 0
}

/// The modifiers of the first `k` legend names whose bits are set.
pub open spec fn modifiers_from(mask: u32, names: Seq<Seq<char>>, k: int) -> SemanticModifiers
    decreases k,
{
    if k <= 0 {
        semantic_modifiers_none()
    } else {
        let m = modifiers_from(mask, names, k - 1);
        if mask_bit(mask, k - 1) {
            apply_modifier(m, names[k - 1])
        } else {
            m
        }
    }
}

/// The base colour of a token type.
pub open spec fn base_color(t: Seq<char>) -> Rgb {
    if t == "namespace"@ {
        Rgb { r: 186, g: 104, b: 200 }
    } else if t == "type"@ || t == "class"@ || t == "enum"@ || t == "struct"@ || t
        == "typeParameter"@ {
        Rgb { r: 79, g: 195, b: 247 }
    } else if t == "interface"@ || t == "event"@ {
        Rgb { r: 255, g: 213, b: 79 }
    } else if t == "parameter"@ {
        Rgb { r: 144, g: 202, b: 249 }
    } else if t == "property"@ {
        Rgb { r: 128, g: 222, b: 234 }
    } else if t == "enumMember"@ {
        Rgb { r: 129, g: 199, b: 132 }
    } else if t == "function"@ || t == "method"@ {
        Rgb { r: 41, g: 121, b: 255 }
    } else if t == "macro"@ {
        Rgb { r: 255, g: 183, b: 77 }
    } else if t == "keyword"@ || t == "modifier"@ {
        Rgb { r: 33, g: 150, b: 243 }
    } else if t == "comment"@ {
        Rgb { r: 158, g: 158, b: 158 }
    } else if t == "string"@ || t == "regexp"@ {
        Rgb { r: 255, g: 138, b: 101 }
    } else if t == "number"@ {
        Rgb { r: 197, g: 225, b: 165 }
    } else {
        Rgb { r: 240, g: 240, b: 240 }
    }
}

/// The style of a token: its type's colour, 30 brighter for a declaration
/// or definition, 30 darker for the default library, green for
/// documentation; italic when read-only, static or abstract; underlined
/// when async.
pub open spec fn token_style(t: Seq<char>, m: SemanticModifiers) -> (Rgb, bool, bool) {
    let c0 = base_color(t);
    let c1 = if m.declaration || m.definition {
        Rgb { r: c0.r.saturating_add(30), g: c0.g.saturating_add(30), b: c0.b.saturating_add(30) }
    } else {
        c0
    };
    let c2 = if m.default_library {
        Rgb { r: c1.r.saturating_sub(30), g: c1.g.saturating_sub(30), b: c1.b.saturating_sub(30) }
    } else {
        c1
    };
    let c3 = if m.documentation { Rgb { r: 76, g: 175, b: 80 } } else { c2 };
    (c3, m.readonly || m.is_static || m.is_abstract, m.is_async)
}

/// The tokens of `data` from index `i` on, the previous token being at
/// `line`, `col`: five numbers per token (line delta, start delta or
/// column, length, type index, modifier mask); an incomplete last group is
/// ignored. Positions wrap around at `u32::MAX`.
pub open spec fn tokens_from(
    d: Seq<Json>,
    i: int,
    line: u32,
    col: u32,
    types: Seq<Seq<char>>,
    mods: Seq<Seq<char>>,
) -> Seq<TokenView>
    decreases d.len() - i,
{
    if i < 0 || i + 4 >= d.len() {
        Seq::empty()
    } else {
        let dl = u64_or_zero(d[i]) as u32;
        let ds = u64_or_zero(d[i + 1]) as u32;
        let length = u64_or_zero(d[i + 2]) as u32;
        let ti = u64_or_zero(d[i + 3]) as usize;
        let mask = u64_or_zero(d[i + 4]) as u32;
        let nl = line.wrapping_add(dl);
        let nc = if dl > 0 { ds } else { col.wrapping_add(ds) };
        let tt = if ti < types.len() { types[ti as int] } else { "variable"@ };
        let m = modifiers_from(mask, mods, mods.len() as int);
        let st = token_style(tt, m);
        seq![(nl, nc, length, tt, m, st.0, st.1, st.2)] + tokens_from(d, i + 5, nl, nc, types, mods)
    }
}

/// A semantic-tokens result: the tokens of its `data` array.
pub open spec fn semantic_tokens_of(
    result: Json,
    types: Seq<Seq<char>>,
    mods: Seq<Seq<char>>,
) -> Seq<TokenView> {
    match get(result, "data"@) {
        Some(v) => match as_array(v) {
            Some(d) => tokens_from(d, 0, 0, 0, types, mods),
            None => Seq::empty(),
        },
        None => Seq::empty(),
    }
}

fn u64_at(d: &Vec<JsonValue>, i: usize) -> (r: u64)
    requires
        i < d.len(),
    ensures
        r == u64_or_zero(models(d@)[i as int]),
{
    proof {
        lemma_models(d@);
    }
    match d[i].as_u64() {
        Some(n) => n,
        None => 0,
    }
}

fn apply_modifier_name(m: &mut SemanticModifiers, name: &str)
    ensures
        *final(m) == apply_modifier(*old(m), name@),
{
    if str_eq(name, "declaration") {
        m.declaration = true;
    } else if str_eq(name, "definition") {
        m.definition = true;
    } else if str_eq(name, "readonly") {
        m.readonly = true;
    } else if str_eq(name, "static") {
        m.is_static = true;
    } else if str_eq(name, "deprecated") {
        m.deprecated = true;
    } else if str_eq(name, "abstract") {
        m.is_abstract = true;
    } else if str_eq(name, "async") {
        m.is_async = true;
    } else if str_eq(name, "modification") {
        m.modification = true;
    } else if str_eq(name, "documentation") {
        m.documentation = true;
    } else if str_eq(name, "defaultLibrary") {
        m.default_library = true;
    }
}

fn modifiers_of_mask(mask: u32, names: &[String]) -> (r: SemanticModifiers)
    ensures
        r == modifiers_from(mask, names.deep_view(), names.len() as int),
{
    let mut m = SemanticModifiers::none();
    let mut k: usize = 0;
    while k < names.len()
        invariant
            k <= names.len(),
            m == modifiers_from(mask, names.deep_view(), k as int),
        decreases names.len() - k,
    {
        if mask & 1u32.wrapping_shl(k as u32) != 0 {
            apply_modifier_name(&mut m, names[k].as_str());
        }
        k = k + 1;
    }
    m
}

fn base_color_of(t: &str) -> (r: Rgb)
    ensures
        r == base_color(t@),
{
    if str_eq(t, "namespace") {
        Rgb { r: 186, g: 104, b: 200 }
    } else if str_eq(t, "type") || str_eq(t, "class") || str_eq(t, "enum") || str_eq(t, "struct")
        || str_eq(t, "typeParameter") {
        Rgb { r: 79, g: 195, b: 247 }
    } else if str_eq(t, "interface") || str_eq(t, "event") {
        Rgb { r: 255, g: 213, b: 79 }
    } else if str_eq(t, "parameter") {
        Rgb { r: 144, g: 202, b: 249 }
    } else if str_eq(t, "property") {
        Rgb { r: 128, g: 222, b: 234 }
    } else if str_eq(t, "enumMember") {
        Rgb { r: 129, g: 199, b: 132 }
    } else if str_eq(t, "function") || str_eq(t, "method") {
        Rgb { r: 41, g: 121, b: 255 }
    } else if str_eq(t, "macro") {
        Rgb { r: 255, g: 183, b: 77 }
    } else if str_eq(t, "keyword") || str_eq(t, "modifier") {
        Rgb { r: 33, g: 150, b: 243 }
    } else if str_eq(t, "comment") {
        Rgb { r: 158, g: 158, b: 158 }
    } else if str_eq(t, "string") || str_eq(t, "regexp") {
        Rgb { r: 255, g: 138, b: 101 }
    } else if str_eq(t, "number") {
        Rgb { r: 197, g: 225, b: 165 }
    } else {
        Rgb { r: 240, g: 240, b: 240 }
    }
}

/// The style of a token, as `token_style`.
pub fn get_semantic_styles(token_type: &str, modifiers: &SemanticModifiers) -> (r: (Rgb, bool, bool))
    ensures
        r == token_style(token_type@, *modifiers),
{
    let mut color = base_color_of(token_type);
    if modifiers.declaration || modifiers.definition {
        color = Rgb {
            r: color.r.saturating_add(30),
            g: color.g.saturating_add(30),
            b: color.b.saturating_add(30),
        };
    }
    if modifiers.default_library {
        color = Rgb {
            r: color.r.saturating_sub(30),
            g: color.g.saturating_sub(30),
            b: color.b.saturating_sub(30),
        };
    }
    if modifiers.documentation {
        color = Rgb { r: 76, g: 175, b: 80 };
    }
    let italic = modifiers.readonly || modifiers.is_static || modifiers.is_abstract;
    let underline = modifiers.is_async;
    (color, italic, underline)
}

/// A semantic-tokens result, as `semantic_tokens_of`.
pub fn parse_semantic_tokens(
    result: &JsonValue,
    legend_types: &[String],
    legend_modifiers: &[String],
) -> (r: Vec<SemanticToken>)
    ensures
        r.deep_view() == semantic_tokens_of(
            result.model(),
            legend_types.deep_view(),
            legend_modifiers.deep_view(),
        ),
{
    let mut tokens: Vec<SemanticToken> = Vec::new();
    let data = match result.get("data") {
        Some(v) => match v.as_array() {
            Some(d) => d,
            None => return tokens,
        },
        None => return tokens,
    };
    let ghost d = models(data@);
    let ghost types = legend_types.deep_view();
    let ghost mods = legend_modifiers.deep_view();
    proof {
        lemma_models(data@);
    }
    let mut line: u32 = 0;
    let mut col: u32 = 0;
    let mut i: usize = 0;
    while data.len() - i > 4
        invariant
            i <= data.len(),
            d == models(data@),
            d.len() == data@.len(),
            types == legend_types.deep_view(),
            mods == legend_modifiers.deep_view(),
            tokens.deep_view() + tokens_from(d, i as int, line, col, types, mods) == tokens_from(
                d,
                0,
                0,
                0,
                types,
                mods,
            ),
        decreases data.len() - i,
    {
        let ghost lo = line;
        let ghost co = col;
        let delta_line = u64_at(data, i) as u32;
        let delta_start = u64_at(data, i + 1) as u32;
        let length = u64_at(data, i + 2) as u32;
        let token_type_idx = u64_at(data, i + 3) as usize;
        let token_modifiers_mask = u64_at(data, i + 4) as u32;
        line = line.wrapping_add(delta_line);
        if delta_line > 0 {
            col = delta_start;
        } else {
            col = col.wrapping_add(delta_start);
        }
        let token_type = if token_type_idx < legend_types.len() {
            legend_types[token_type_idx].clone()
        } else {
            owned("variable")
        };
        let modifiers = modifiers_of_mask(token_modifiers_mask, legend_modifiers);
        let (color, italic, underline) = get_semantic_styles(token_type.as_str(), &modifiers);
        let ghost before = tokens.deep_view();
        tokens.push(
            SemanticToken { line, col, length, token_type, modifiers, color, italic, underline },
        );
        proof {
            let t = (line, col, length, token_type@, modifiers, color, italic, underline);
            assert(tokens.deep_view() =~= before.push(t));
            assert(tokens_from(d, i as int, lo, co, types, mods) == seq![t] + tokens_from(
                d,
                i + 5,
                line,
                col,
                types,
                mods,
            ));
            assert(before.push(t) + tokens_from(d, i + 5, line, col, types, mods) =~= before + (seq![t]
                + tokens_from(d, i + 5, line, col, types, mods)));
        }
        i = i + 5;
    }
    assert(tokens.deep_view() + tokens_from(d, i as int, line, col, types, mods) =~= tokens.deep_view());
    tokens
}

} // verus!
