use recipe_md::{Fraction, Ingredient, Quantity, Recipe, Volume};

fn pizza_src() -> &'static str {
    "# Pizza\n\nA simple pizza dough.\n\n## Ingredients\n\n- 2 cups flour\n- 1 cup water\n- 1 tbsp olive oil\n- 1/2 tsp salt\n- 2 tsps yeast\n\n## Instructions\n\nMix and bake.\n"
}

fn render_str(r: &Recipe) -> String {
    String::from_utf8(r.render()).unwrap()
}

#[test]
fn lib_pizza() {
    let src = pizza_src();
    let recipe = Recipe::parse(src.as_bytes());
    let scaled = recipe.scale(Fraction { num: 1, den: 2 });
    println!("{}", render_str(&scaled));
    assert_eq!(src, render_str(&recipe));
}

#[test]
fn mod_pizza() {
    let src = pizza_src();
    let recipe = Recipe::parse(src.as_bytes());
    let scaled = recipe.scale(Fraction { num: 1, den: 2 });
    println!("{}", render_str(&scaled));
    assert_eq!(src, render_str(&recipe));
}

#[test]
fn pizza_halved_text() {
    let src = pizza_src();
    let recipe = Recipe::parse(src.as_bytes());
    let scaled = recipe.scale(Fraction { num: 1, den: 2 });
    let expected = "# Pizza\n\nA simple pizza dough.\n\n## Ingredients\n\n- 1 cup flour\n- 1/2 cup water\n- 1/2 tbsp olive oil\n- 1/4 tsp salt\n- 1 tsp yeast\n\n## Instructions\n\nMix and bake.\n";
    assert_eq!(expected, render_str(&scaled));
}

fn vol(num: u64, den: u64) -> Volume {
    Volume { quarter_teaspoons: Fraction { num, den } }
}

fn vol_text(num: u64, den: u64) -> String {
    String::from_utf8(vol(num, den).render()).unwrap()
}

#[test]
fn volume_render_boundaries() {
    assert_eq!("", vol_text(0, 1));
    assert_eq!("1 cup", vol_text(192, 1));
    assert_eq!("2 cups", vol_text(384, 1));
    assert_eq!("1 + 3/4 cups", vol_text(336, 1));
    assert_eq!("1/2 tbsp", vol_text(6, 1));
    assert_eq!("1/4 tsp", vol_text(1, 1));
    assert_eq!("1/16 tsp", vol_text(1, 4));
}

#[test]
fn volume_render_no_fraction_combining() {
    // 164 quarter-teaspoons: greedy takes 3/4 cup, never 3/4 + 1/3.
    // Group labels carry no trailing space, so the "+ " joiner follows
    // them directly.
    assert_eq!("3/4 cup+ 1 tbsp+ 2 tsps", vol_text(164, 1));
}

#[test]
fn volume_render_half_tablespoon_window() {
    // 9 quarter-teaspoons after whole tablespoons is 2.25 tsp: the
    // half-tablespoon check is skipped and the teaspoon group reports it.
    assert_eq!("2 + 1/4 tsps", vol_text(9, 1));
    // 6 and 7 lie inside the [6, 8) window.
    assert_eq!("1/2 tbsp", vol_text(6, 1));
    assert_eq!("1 + 1/2 tbsps", vol_text(18, 1));
}

#[test]
fn volume_render_eighth_teaspoon() {
    assert_eq!("1/8 tsp", vol_text(1, 2));
}

#[test]
fn parse_fallback_simple_and_none() {
    let src = "x\n## Ingredients\n\n- 2 eggs\n- salt to taste\n";
    let recipe = Recipe::parse(src.as_bytes());
    assert_eq!(2, recipe.ingredients.len());
    assert_eq!(
        Quantity::Simple(Fraction { num: 2, den: 1 }),
        recipe.ingredients[0].quantity
    );
    assert_eq!(b"eggs\n".to_vec(), recipe.ingredients[0].name);
    assert_eq!(Quantity::NoAmount, recipe.ingredients[1].quantity);
    assert_eq!(b"salt to taste\n".to_vec(), recipe.ingredients[1].name);
}

#[test]
fn parse_two_tokens_without_name_falls_to_simple() {
    // "1/2 cup" has no text after the unit, so the volume probe finds no
    // second space and the scalar fallback wins.
    let item = b"- 1/2 cup";
    let ing = Ingredient::parse(item);
    assert_eq!(Quantity::Simple(Fraction { num: 1, den: 2 }), ing.quantity);
    assert_eq!(b"cup".to_vec(), ing.name);
}

#[test]
fn unit_alias_coverage() {
    let aliases: [&[u8]; 6] = [b"tbs", b"tbsp", b"tbsps", b"tablespoon", b"tablespoons", b"tb"];
    let expected = Volume::parse(b"3", b"tbsp").unwrap().quarter_teaspoons();
    for alias in aliases {
        let v = Volume::parse(b"3", alias).expect("alias must parse");
        assert_eq!(expected, v.quarter_teaspoons());
        assert_eq!(Fraction { num: 36, den: 1 }, v.quarter_teaspoons());
    }
}

#[test]
fn unit_lookup_is_case_insensitive() {
    let v = Volume::parse(b"1", b"CUP").unwrap();
    assert_eq!(Fraction { num: 192, den: 1 }, v.quarter_teaspoons());
    let v = Volume::parse(b"1", b"TbSp").unwrap();
    assert_eq!(Fraction { num: 12, den: 1 }, v.quarter_teaspoons());
}

#[test]
fn unrecognized_unit_is_rejected() {
    assert!(Volume::parse(b"2", b"eggs").is_none());
    assert!(Volume::parse(b"2", b"grams").is_none());
}

#[test]
fn malformed_amount_is_rejected() {
    assert!(Volume::parse(b"", b"cup").is_none());
    assert!(Volume::parse(b"1..5", b"cup").is_none());
    assert!(Volume::parse(b"a", b"cup").is_none());
    assert!(Volume::parse(b"1/0", b"cup").is_none());
}

#[test]
fn decimal_amounts_parse_exactly() {
    let v = Volume::parse(b"1.5", b"cups").unwrap();
    // 1.5 cups = 15/10 * 192 = 2880/10 quarter-teaspoons.
    assert_eq!(Fraction { num: 2880, den: 10 }, v.quarter_teaspoons());
    assert_eq!("1 + 1/2 cups", String::from_utf8(v.render()).unwrap());
    let v = Volume::parse(b".5", b"cup").unwrap();
    assert_eq!(Fraction { num: 960, den: 10 }, v.quarter_teaspoons());
}

#[test]
fn scale_identity() {
    let src = pizza_src();
    let recipe = Recipe::parse(src.as_bytes());
    let scaled = recipe.scale(Fraction { num: 1, den: 1 });
    assert_eq!(render_str(&recipe), render_str(&scaled));
    for (a, b) in recipe.ingredients.iter().zip(scaled.ingredients.iter()) {
        assert_eq!(a.quantity, b.quantity);
    }
}

#[test]
fn scale_linearity() {
    let src = pizza_src();
    let recipe = Recipe::parse(src.as_bytes());
    let a = Fraction { num: 2, den: 3 };
    let b = Fraction { num: 3, den: 4 };
    let ab = Fraction { num: 6, den: 12 };
    let twice = recipe.scale(a).scale(b);
    let once = recipe.scale(ab);
    for (x, y) in twice.ingredients.iter().zip(once.ingredients.iter()) {
        assert_eq!(x.quantity, y.quantity);
    }
    assert_eq!(render_str(&twice), render_str(&once));
}

#[test]
fn volume_scale_is_exact() {
    let v = Volume::parse(b"1", b"cup").unwrap();
    let s = v.scale(Fraction { num: 1, den: 3 });
    assert_eq!(Fraction { num: 192, den: 3 }, s.quarter_teaspoons());
    assert_eq!("1/3 cup", String::from_utf8(s.render()).unwrap());
}

#[test]
fn missing_header_is_all_preface() {
    let src = "just some text\nwith no ingredients header\n";
    let recipe = Recipe::parse(src.as_bytes());
    assert_eq!(src.as_bytes().to_vec(), recipe.preface);
    assert!(recipe.ingredients.is_empty());
    assert!(recipe.instructions.is_empty());
    assert_eq!(src, render_str(&recipe));
}

#[test]
fn missing_second_header_takes_rest_as_ingredients() {
    let src = "title\n## Ingredients\n\n- 1 cup milk\n";
    let recipe = Recipe::parse(src.as_bytes());
    assert_eq!(1, recipe.ingredients.len());
    assert!(recipe.instructions.is_empty());
    assert_eq!(src, render_str(&recipe));
}

#[test]
fn nested_items_keep_indentation() {
    let src = "t\n## Ingredients\n\n- 1 cup flour\n  - 2 tsps sugar\n";
    let recipe = Recipe::parse(src.as_bytes());
    assert_eq!(2, recipe.ingredients.len());
    assert_eq!(b"  ".to_vec(), recipe.ingredients[1].indent);
    assert_eq!(src, render_str(&recipe));
}

#[test]
fn wrapped_lines_stay_with_their_item() {
    let src = "t\n## Ingredients\n\n- 1 cup flour\n  sifted twice\n- 1 tsp salt\n";
    let recipe = Recipe::parse(src.as_bytes());
    assert_eq!(2, recipe.ingredients.len());
    assert_eq!(b"flour\n  sifted twice\n".to_vec(), recipe.ingredients[0].name);
    assert_eq!(src, render_str(&recipe));
}

#[test]
fn simple_quantity_renders_as_reduced_fraction() {
    // An exact-rational library renders non-whole scalars in fraction form.
    let item = b"- 2.5 eggs";
    let ing = Ingredient::parse(item);
    assert_eq!(Quantity::Simple(Fraction { num: 25, den: 10 }), ing.quantity);
    assert_eq!(b"- 5/2 eggs".to_vec(), ing.render());
}

#[test]
fn into_static_returns_the_same_recipe() {
    let src = pizza_src();
    let recipe = Recipe::parse(src.as_bytes());
    let before = render_str(&recipe);
    let owned = recipe.into_static();
    assert_eq!(before, render_str(&owned));
}

#[test]
fn volume_render_greedy_cup_fractions() {
    // 176 quarter-teaspoons: the 3/4-cup check fires first and the rest
    // falls to the tablespoon and teaspoon groups.
    assert_eq!("3/4 cup+ 2 tbsps+ 2 tsps", vol_text(176, 1));
}

#[test]
fn volume_render_exact_twelfth_teaspoon() {
    // A third of a teaspoon: a quarter teaspoon plus an exact 1/12 tsp
    // leftover, kept exact by the rational model.
    let v = Volume::parse(b"1/3", b"tsp").unwrap();
    assert_eq!(Fraction { num: 4, den: 3 }, v.quarter_teaspoons());
    assert_eq!("1/4 + 1/12 tsps", String::from_utf8(v.render()).unwrap());
}

#[test]
fn whole_valued_fraction_renders_as_integer() {
    let item = b"- 4/2 eggs";
    let ing = Ingredient::parse(item);
    assert_eq!(Quantity::Simple(Fraction { num: 4, den: 2 }), ing.quantity);
    assert_eq!(b"- 2 eggs".to_vec(), ing.render());
}

#[test]
fn block_without_markers_yields_no_items() {
    // An ingredients block with no "- " marker segments into nothing, so
    // its text does not survive a render.
    let src = "t\n## Ingredients\n\nno items here\n";
    let recipe = Recipe::parse(src.as_bytes());
    assert!(recipe.ingredients.is_empty());
    assert_eq!("t\n## Ingredients\n\n", render_str(&recipe));
}

#[test]
fn quantityless_line_round_trips() {
    let item = b"  - salt to taste";
    let ing = Ingredient::parse(item);
    assert_eq!(Quantity::NoAmount, ing.quantity);
    assert_eq!(item.to_vec(), ing.render());
}
