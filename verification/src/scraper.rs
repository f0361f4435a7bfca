//! The recipe importer's normalization: raw scraped recipe data, the
//! cleanup of scraped instruction steps, and the parsing of scraped
//! ingredient quantities.

use vstd::prelude::*;

use crate::amount::Amount;
use crate::text::{fixed_value, lower_of, parse_fixed, str_eq};
use crate::types::{Ingredient, RecipeStep};
use crate::units::{unit_of_name, Units};

verus! {

/// A scraped recipe as the import tool hands it over, all still text.
#[derive(Clone, Debug)]
pub struct RecipeJSON {
    pub author: String,
    pub canonical_url: String,
    pub category: String,
    pub cuisine: String,
    pub description: String,
    pub host: String,
    pub image: String,
    pub ingredients: Vec<String>,
    pub instructions_list: Vec<String>,
    pub title: String,
    pub yields: String,
}

/// A quantity as scraped: a plain decimal, or one of the single-character
/// vulgar fractions the importer knows, in hundred-thousandths of a unit.
pub open spec fn amount_value(s: Seq<char>) -> Option<u64> {
    if fixed_value(s) is Some {
        fixed_value(s)
    } else if s == "\u{bd}"@ {
        Some(50000)
    } else if s == "\u{2153}"@ {
        Some(30000)
    } else if s == "\u{2154}"@ {
        Some(60000)
    } else if s == "\u{bc}"@ {
        Some(25000)
    } else if s == "\u{be}"@ {
        Some(75000)
    } else if s == "\u{2155}"@ {
        Some(20000)
    } else if s == "\u{2156}"@ {
        Some(40000)
    } else if s == "\u{2157}"@ {
        Some(60000)
    } else if s == "\u{2158}"@ {
        Some(80000)
    } else if s == "\u{2159}"@ {
        Some(16000)
    } else if s == "\u{215a}"@ {
        Some(83000)
    } else if s == "\u{2150}"@ {
        Some(14000)
    } else if s == "\u{215b}"@ {
        Some(12500)
    } else if s == "\u{215c}"@ {
        Some(37500)
    } else if s == "\u{215d}"@ {
        Some(62500)
    } else if s == "\u{215e}"@ {
        Some(87500)
    } else if s == "\u{2151}"@ {
        Some(11100)
    } else if s == "\u{2152},"@ {
        Some(10000)
    } else {
        None
    }
}

/// Parses a scraped quantity into hundred-thousandths of a unit: a plain
/// decimal, or one of the known single-character vulgar fractions at its
/// conventional rounding. Anything else fails.
pub fn parse_amount(amount: &str) -> (r: Result<u64, ()>)
    ensures
        r == match amount_value(amount@) {
            Some(v) => Ok::<u64, ()>(v),
            None => Err::<u64, ()>(()),
        },
{
    if let Some(v) = parse_fixed(amount) {
        return Ok(v);
    }

    if str_eq(amount, "\u{bd}") {
        Ok(50000)
    } else if str_eq(amount, "\u{2153}") {
        Ok(30000)
    } else if str_eq(amount, "\u{2154}") {
        Ok(60000)
    } else if str_eq(amount, "\u{bc}") {
        Ok(25000)
    } else if str_eq(amount, "\u{be}") {
        Ok(75000)
    } else if str_eq(amount, "\u{2155}") {
        Ok(20000)
    } else if str_eq(amount, "\u{2156}") {
        Ok(40000)
    } else if str_eq(amount, "\u{2157}") {
        Ok(60000)
    } else if str_eq(amount, "\u{2158}") {
        Ok(80000)
    } else if str_eq(amount, "\u{2159}") {
        Ok(16000)
    } else if str_eq(amount, "\u{215a}") {
        Ok(83000)
    } else if str_eq(amount, "\u{2150}") {
        Ok(14000)
    } else if str_eq(amount, "\u{215b}") {
        Ok(12500)
    } else if str_eq(amount, "\u{215c}") {
        Ok(37500)
    } else if str_eq(amount, "\u{215d}") {
        Ok(62500)
    } else if str_eq(amount, "\u{215e}") {
        Ok(87500)
    } else if str_eq(amount, "\u{2151}") {
        Ok(11100)
    } else if str_eq(amount, "\u{2152},") {
        Ok(10000)
    } else {
        Err(())
    }
}

/// Whether a character is Unicode whitespace, as trimming understands it.
pub open spec fn is_trim_ws(c: char) -> bool {
    let u = c as u32;
    (9 <= u <= 13) || u == 32 || u == 0x85 || u == 0xA0 || u == 0x1680 || (0x2000 <= u <= 0x200A)
        || u == 0x2028 || u == 0x2029 || u == 0x202F || u == 0x205F || u == 0x3000
}

fn is_trim_ws_char(c: char) -> (r: bool)
    ensures
        r == is_trim_ws(c),
{
    let u = c as u32;
    (9 <= u && u <= 13) || u == 32 || u == 0x85 || u == 0xA0 || u == 0x1680 || (0x2000 <= u && u
        <= 0x200A) || u == 0x2028 || u == 0x2029 || u == 0x202F || u == 0x205F || u == 0x3000
}

/// The characters with every bullet-and-space pair removed, scanning left
/// to right.
pub open spec fn strip_bullets(s: Seq<char>) -> Seq<char>
    decreases s.len(),
{
    if s.len() >= 2 && s[0] == '\u{2022}' && s[1] == ' ' {
        strip_bullets(s.subrange(2, s.len() as int))
    } else if s.len() > 0 {
        seq![s[0]] + strip_bullets(s.subrange(1, s.len() as int))
    } else {
        Seq::empty()
    }
}

/// The characters without their leading whitespace.
pub open spec fn trim_start(s: Seq<char>) -> Seq<char>
    decreases s.len(),
{
    if s.len() > 0 && is_trim_ws(s[0]) {
        trim_start(s.subrange(1, s.len() as int))
    } else {
        s
    }
}

/// The characters without their trailing whitespace.
pub open spec fn trim_end(s: Seq<char>) -> Seq<char>
    decreases s.len(),
{
    if s.len() > 0 && is_trim_ws(s.last()) {
        trim_end(s.drop_last())
    } else {
        s
    }
}

/// A whitespace-trimmed subrange of non-whitespace-delimited characters is
/// the trim of the whole.
proof fn lemma_trim_is_subrange(s: Seq<char>, a: int, b: int)
    requires
        0 <= a <= b <= s.len(),
        forall|j: int| 0 <= j < a ==> is_trim_ws(s[j]),
        forall|j: int| b <= j < s.len() ==> is_trim_ws(s[j]),
        a < b ==> !is_trim_ws(s[a]),
        a < b ==> !is_trim_ws(s[b - 1]),
    ensures
        trim_end(trim_start(s)) == s.subrange(a, b),
    decreases a,
{
    if a > 0 {
        assert(trim_start(s) == trim_start(s.subrange(1, s.len() as int)));
        lemma_trim_is_subrange(s.subrange(1, s.len() as int), a - 1, b - 1);
        assert(s.subrange(1, s.len() as int).subrange(a - 1, b - 1) =~= s.subrange(a, b));
    } else {
        if a == b {
            lemma_trim_start_all_ws(s);
            assert(trim_end(Seq::<char>::empty()) == Seq::<char>::empty());
            assert(s.subrange(0, 0) =~= Seq::<char>::empty());
        } else {
            assert(!is_trim_ws(s[0]));
            assert(trim_start(s) == s);
            lemma_trim_end_cut(s, b);
        }
    }
}

/// Trimming an all-whitespace sequence from the start empties it.
proof fn lemma_trim_start_all_ws(s: Seq<char>)
    requires
        forall|j: int| 0 <= j < s.len() ==> is_trim_ws(s[j]),
    ensures
        trim_start(s) == Seq::<char>::empty(),
    decreases s.len(),
{
    if s.len() > 0 {
        lemma_trim_start_all_ws(s.subrange(1, s.len() as int));
    } else {
        assert(s =~= Seq::<char>::empty());
    }
}

/// Trimming the end cuts exactly the trailing whitespace.
proof fn lemma_trim_end_cut(s: Seq<char>, b: int)
    requires
        0 <= b <= s.len(),
        forall|j: int| b <= j < s.len() ==> is_trim_ws(s[j]),
        b > 0 ==> !is_trim_ws(s[b - 1]),
    ensures
        trim_end(s) == s.subrange(0, b),
    decreases s.len(),
{
    if s.len() > b {
        assert(is_trim_ws(s.last()));
        lemma_trim_end_cut(s.drop_last(), b);
        assert(s.drop_last().subrange(0, b) =~= s.subrange(0, b));
    } else {
        if b > 0 {
            assert(!is_trim_ws(s.last()));
            assert(s.subrange(0, b) =~= s);
        } else {
            assert(s.len() == 0);
            assert(s.subrange(0, 0) =~= s);
        }
    }
}

/// Cleans one scraped instruction step: removes every bullet-and-space
/// pair, then trims surrounding whitespace.
pub fn cleanup_recipe_step(step: &str) -> (r: String)
    ensures
        r@ == trim_end(trim_start(strip_bullets(step@))),
{
    let n = step.unicode_len();
    let mut out = String::new();
    let mut seg_start: usize = 0;
    let mut i: usize = 0;
    proof {
        assert(step@.subrange(0, 0) =~= Seq::<char>::empty());
        assert(step@.subrange(0, n as int) =~= step@);
    }
    while i < n
        invariant
            n == step@.len(),
            seg_start <= i <= n,
            strip_bullets(step@) =~= out@ + step@.subrange(seg_start as int, i as int)
                + strip_bullets(step@.subrange(i as int, n as int)),
        decreases n - i,
    {
        let c = step.get_char(i);
        if c == '\u{2022}' && i + 1 < n && step.get_char(i + 1) == ' ' {
            let seg = step.substring_char(seg_start, i);
            out.append(seg);
            proof {
                assert(strip_bullets(step@.subrange(i as int, n as int)) == strip_bullets(
                    step@.subrange(i as int + 2, n as int),
                )) by {
                    assert(step@.subrange(i as int, n as int).subrange(
                        2,
                        step@.subrange(i as int, n as int).len() as int,
                    ) =~= step@.subrange(i as int + 2, n as int));
                }
                assert(step@.subrange(seg_start as int, i as int + 2).subrange(
                    0,
                    i as int - seg_start,
                ) =~= step@.subrange(seg_start as int, i as int));
            }
            i += 2;
            seg_start = i;
            proof {
                assert(step@.subrange(seg_start as int, i as int) =~= Seq::<char>::empty());
            }
        } else {
            proof {
                let suffix = step@.subrange(i as int, n as int);
                assert(suffix.len() > 0 && suffix[0] == step@[i as int]);
                if suffix.len() >= 2 && suffix[0] == '\u{2022}' && suffix[1] == ' ' {
                    assert(step@[i as int] == '\u{2022}');
                    assert(step@[i as int + 1] == ' ');
                    assert(false);
                }
                assert(strip_bullets(suffix) == seq![step@[i as int]] + strip_bullets(
                    step@.subrange(i as int + 1, n as int),
                )) by {
                    assert(suffix.subrange(1, suffix.len() as int) =~= step@.subrange(
                        i as int + 1,
                        n as int,
                    ));
                }
                assert(step@.subrange(seg_start as int, i as int + 1) =~= step@.subrange(
                    seg_start as int,
                    i as int,
                ) + seq![step@[i as int]]);
            }
            i += 1;
        }
    }
    let tail = step.substring_char(seg_start, n);
    out.append(tail);
    proof {
        assert(strip_bullets(step@.subrange(n as int, n as int)) == Seq::<char>::empty()) by {
            assert(step@.subrange(n as int, n as int) =~= Seq::<char>::empty());
        }
        assert(out@ =~= strip_bullets(step@));
    }

    // Trim the stripped text.
    let stripped = out;
    let m = stripped.as_str().unicode_len();
    let mut a: usize = 0;
    while a < m && is_trim_ws_char(stripped.as_str().get_char(a))
        invariant
            m == stripped@.len(),
            a <= m,
            forall|j: int| 0 <= j < a ==> is_trim_ws(stripped@[j]),
        decreases m - a,
    {
        a += 1;
    }
    let mut b: usize = m;
    while b > a && is_trim_ws_char(stripped.as_str().get_char(b - 1))
        invariant
            m == stripped@.len(),
            a <= b <= m,
            forall|j: int| b <= j < m ==> is_trim_ws(stripped@[j]),
        decreases b,
    {
        b -= 1;
    }
    let trimmed = stripped.as_str().substring_char(a, b);
    proof {
        lemma_trim_is_subrange(stripped@, a as int, b as int);
    }
    String::from_str(trimmed)
}

/// A normalized scraped recipe, ready to become a stored recipe.
#[derive(Debug)]
pub struct NormalizedRecipe {
    pub image: String,
    pub ingredients: Vec<Ingredient>,
    pub name: String,
    pub recipe: Vec<RecipeStep>,
}

/// Whether a space occurs at or after the given position.
pub open spec fn has_space(s: Seq<char>, from: int) -> bool {
    exists|p: int| from <= p < s.len() && s[p] == ' '
}

/// The first space at or after the given position; meaningful only when
/// one exists.
pub open spec fn space_index(s: Seq<char>, from: int) -> int {
    choose|p: int|
        from <= p < s.len() && s[p] == ' ' && (forall|j: int| from <= j < p ==> s[j] != ' ')
}

/// A position holding a space with no earlier space is the first space.
proof fn lemma_space_index(s: Seq<char>, from: int, p: int)
    requires
        from <= p < s.len(),
        s[p] == ' ',
        forall|j: int| from <= j < p ==> s[j] != ' ',
    ensures
        has_space(s, from),
        space_index(s, from) == p,
{
    let q = space_index(s, from);
    assert(from <= q < s.len() && s[q] == ' ' && (forall|j: int| from <= j < q ==> s[j] != ' '));
    if q < p {
        assert(s[q] != ' ');
    } else if p < q {
        assert(s[p] != ' ');
    }
}

/// What one scraped ingredient line denotes, if it parses: the text before
/// the first space as the quantity, the word between the first and second
/// spaces as the unit, and everything after the second space as the name.
/// A line with fewer than two spaces, an unknown unit or an unparsable
/// quantity denotes nothing and is dropped.
pub open spec fn parsed_ingredient(s: Seq<char>) -> Option<(Amount, Seq<char>)> {
    if has_space(s, 0) {
        let p1 = space_index(s, 0);
        if has_space(s, p1 + 1) {
            let p2 = space_index(s, p1 + 1);
            let unit = unit_of_name(lower_of(s.subrange(p1 + 1, p2)));
            let amount = amount_value(s.subrange(0, p1));
            if unit is Some && amount is Some {
                Some((Amount { units: unit->0, value: amount->0 }, s.subrange(p2 + 1, s.len() as int)))
            } else {
                None
            }
        } else {
            None
        }
    } else {
        None
    }
}

/// The ingredients a list of scraped lines denotes, the unparsable lines
/// dropped.
pub open spec fn normalized_ingredients(lines: Seq<Seq<char>>) -> Seq<(Amount, Seq<char>)>
    decreases lines.len(),
{
    if lines.len() == 0 {
        Seq::empty()
    } else {
        normalized_ingredients(lines.drop_last()) + (match parsed_ingredient(lines.last()) {
            Some(x) => seq![x],
            None => Seq::empty(),
        })
    }
}

/// The first space of a string slice, if any.
fn find_space(s: &str, from: usize) -> (r: Option<usize>)
    requires
        from <= s@.len(),
    ensures
        s@.len() <= usize::MAX,
        match r {
            Some(p) => from <= p < s@.len() && s@[p as int] == ' ' && has_space(s@, from as int)
                && space_index(s@, from as int) == p,
            None => !has_space(s@, from as int),
        },
{
    let n = s.unicode_len();
    let mut p: usize = from;
    while p < n
        invariant
            n == s@.len(),
            from <= p <= n,
            forall|j: int| from <= j < p ==> s@[j] != ' ',
        decreases n - p,
    {
        if s.get_char(p) == ' ' {
            proof {
                lemma_space_index(s@, from as int, p as int);
            }
            return Some(p);
        }
        p += 1;
    }
    None
}

/// Parses one scraped ingredient line, if it has the two-space shape with
/// a known unit and quantity.
#[verifier::rlimit(100)]
fn parse_ingredient_line(line: &str) -> (r: Option<Ingredient>)
    ensures
        match r {
            Some(ing) => parsed_ingredient(line@) matches Some(p) && p.0 == ing.amount && p.1
                == ing.name@,
            None => parsed_ingredient(line@) is None,
        },
{
    let p1 = match find_space(line, 0) {
        Some(p1) => p1,
        None => {
            return None;
        },
    };
    let p2 = match find_space(line, p1 + 1) {
        Some(p2) => p2,
        None => {
            return None;
        },
    };
    let unit_word = line.substring_char(p1 + 1, p2);
    let units = match Units::parse(unit_word) {
        Ok(units) => units,
        Err(_) => {
            return None;
        },
    };
    let amount_word = line.substring_char(0, p1);
    let value = match parse_amount(amount_word) {
        Ok(value) => value,
        Err(_) => {
            return None;
        },
    };
    let name_len = line.unicode_len();
    let rest = line.substring_char(p2 + 1, name_len);
    Some(Ingredient { amount: Amount { units, value }, name: String::from_str(rest) })
}

/// Normalizes a scraped recipe: parses each ingredient line into a
/// quantity, a unit and a name — dropping the lines that do not parse —
/// and cleans each instruction step, keeping the scraped title and image.
#[verifier::rlimit(100)]
pub fn normalize_recipe_json(json: RecipeJSON) -> (r: NormalizedRecipe)
    ensures
        r.image == json.image,
        r.name == json.title,
        r.ingredients@.map_values(|i: Ingredient| (i.amount, i.name@)) =~= normalized_ingredients(
            json.ingredients@.map_values(|s: String| s@),
        ),
        r.recipe@.len() == json.instructions_list@.len(),
        forall|k: int|
            0 <= k < json.instructions_list@.len() ==> (#[trigger] r.recipe@[k]).description@
                == trim_end(trim_start(strip_bullets(json.instructions_list@[k]@))),
{
    let ghost lines = json.ingredients@.map_values(|s: String| s@);
    let mut ingredients: Vec<Ingredient> = Vec::new();
    let n = json.ingredients.len();
    let mut i: usize = 0;
    while i < n
        invariant
            lines == json.ingredients@.map_values(|s: String| s@),
            n == json.ingredients@.len(),
            i <= n,
            ingredients@.map_values(|it: Ingredient| (it.amount, it.name@)) =~~= normalized_ingredients(
                lines.subrange(0, i as int),
            ),
        decreases n - i,
    {
        let line = &json.ingredients[i];
        proof {
            assert(lines[i as int] == line@);
            assert(lines.subrange(0, i as int + 1).drop_last() =~= lines.subrange(0, i as int));
            assert(lines.subrange(0, i as int + 1).last() == line@);
        }
        let parsed: Option<Ingredient> = parse_ingredient_line(line.as_str());
        match parsed {
            Some(ing) => {
                ingredients.push(ing);
            },
            None => {},
        }
        i += 1;
    }
    proof {
        assert(lines.subrange(0, n as int) =~= lines);
    }

    let mut recipe: Vec<RecipeStep> = Vec::new();
    let mut t: usize = 0;
    while t < json.instructions_list.len()
        invariant
            t <= json.instructions_list@.len(),
            recipe@.len() == t,
            forall|k: int|
                0 <= k < t ==> (#[trigger] recipe@[k]).description@ == trim_end(
                    trim_start(strip_bullets(json.instructions_list@[k]@)),
                ),
        decreases json.instructions_list@.len() - t,
    {
        let description = cleanup_recipe_step(json.instructions_list[t].as_str());
        recipe.push(RecipeStep { description });
        t += 1;
    }

    NormalizedRecipe { image: json.image, ingredients, name: json.title, recipe }
}

} // verus!
