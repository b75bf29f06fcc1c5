//! End-to-end tests of the generator: the required behavior of expansion,
//! substitution, emission, and the numeric checks.

use polymorphic_constant::token::{Token, TokenKind};
use polymorphic_constant::{expand, polymorphic_constant, Error, Expanded};

// A tiny arithmetic evaluator over the rewritten initializer tokens: what
// the host compiler would compute for the emitted field initializers.

struct Cursor<'a> {
    ts: &'a [Token],
    i: usize,
}

impl<'a> Cursor<'a> {
    fn peek(&self) -> Option<&'a str> {
        self.ts.get(self.i).map(|t| t.text.as_str())
    }

    fn bump(&mut self) -> &'a Token {
        let t = &self.ts[self.i];
        self.i += 1;
        t
    }
}

fn atom_f64(c: &mut Cursor) -> f64 {
    match c.peek() {
        Some("(") => {
            c.bump();
            let v = expr_f64(c);
            assert_eq!(c.bump().text, ")");
            v
        }
        Some("-") => {
            c.bump();
            -atom_f64(c)
        }
        _ => {
            let t = c.bump();
            assert!(matches!(t.kind, TokenKind::Number));
            t.text.parse::<f64>().unwrap()
        }
    }
}

fn product_f64(c: &mut Cursor) -> f64 {
    let mut v = atom_f64(c);
    loop {
        match c.peek() {
            Some("*") => {
                c.bump();
                v *= atom_f64(c);
            }
            Some("/") => {
                c.bump();
                v /= atom_f64(c);
            }
            _ => return v,
        }
    }
}

fn expr_f64(c: &mut Cursor) -> f64 {
    let mut v = product_f64(c);
    loop {
        match c.peek() {
            Some("+") => {
                c.bump();
                v += product_f64(c);
            }
            Some("-") => {
                c.bump();
                v -= product_f64(c);
            }
            _ => return v,
        }
    }
}

fn atom_i128(c: &mut Cursor) -> i128 {
    match c.peek() {
        Some("(") => {
            c.bump();
            let v = expr_i128(c);
            assert_eq!(c.bump().text, ")");
            v
        }
        Some("-") => {
            c.bump();
            -atom_i128(c)
        }
        _ => {
            let t = c.bump();
            assert!(matches!(t.kind, TokenKind::Number));
            t.text.parse::<i128>().unwrap()
        }
    }
}

fn product_i128(c: &mut Cursor) -> i128 {
    let mut v = atom_i128(c);
    loop {
        match c.peek() {
            Some("*") => {
                c.bump();
                v *= atom_i128(c);
            }
            _ => return v,
        }
    }
}

fn expr_i128(c: &mut Cursor) -> i128 {
    let mut v = product_i128(c);
    loop {
        match c.peek() {
            Some("+") => {
                c.bump();
                v += product_i128(c);
            }
            Some("-") => {
                c.bump();
                v -= product_i128(c);
            }
            _ => return v,
        }
    }
}

fn eval_f64(ts: &[Token]) -> f64 {
    let mut c = Cursor { ts, i: 0 };
    let v = expr_f64(&mut c);
    assert_eq!(c.i, ts.len());
    v
}

fn eval_i128(ts: &[Token]) -> i128 {
    let mut c = Cursor { ts, i: 0 };
    let v = expr_i128(&mut c);
    assert_eq!(c.i, ts.len());
    v
}

fn expand_ok(input: &str) -> (Vec<Expanded>, String) {
    expand(input).unwrap()
}

fn get<'a>(es: &'a [Expanded], name: &str) -> &'a Expanded {
    es.iter().find(|e| e.decl.name == name).unwrap()
}

fn val_f64(es: &[Expanded], name: &str) -> f64 {
    eval_f64(&get(es, name).init_subst)
}

fn val_i128(es: &[Expanded], name: &str) -> i128 {
    eval_i128(&get(es, name).init_subst)
}

fn input_std() -> &'static str {
    "const PI: f32 | f64 = 3.141592653589793;\n\
     pub (crate) const E: f32 | f64 = 2.7182818284590452353602874713526624977572;\n\
     pub const UINT: u16 | u32 | u64 | usize | i16 | i32 | i64 | isize = 2047;\n\
     pub const INT: i16 | i32 | i64 | isize = -2047;\n"
}

#[test]
fn basic() {
    let (es, _) = expand_ok(input_std());
    assert_eq!(val_f64(&es, "PI"), 3.141592653589793f64);
}

#[test]
fn test_const() {
    let (es, _) = expand_ok(input_std());
    assert_eq!(val_f64(&es, "PI") as f32, 3.141592653589793);
    assert_eq!(val_f64(&es, "PI"), 3.141592653589793);
    assert_eq!(val_f64(&es, "E") as f32, 2.718281828459045235360287471f32);
    assert_eq!(val_f64(&es, "E"), 2.718281828459045235360287471f64);
    assert_eq!(val_i128(&es, "UINT") as u16, 2047);
    assert_eq!(val_i128(&es, "UINT") as u32, 2047);
    assert_eq!(val_i128(&es, "UINT") as u64, 2047);
    assert_eq!(val_i128(&es, "UINT") as usize, 2047);
    assert_eq!(val_i128(&es, "UINT") as i16, 2047);
    assert_eq!(val_i128(&es, "UINT") as i32, 2047);
    assert_eq!(val_i128(&es, "UINT") as i64, 2047);
    assert_eq!(val_i128(&es, "UINT") as isize, 2047);
    assert_eq!(val_i128(&es, "INT") as i16, -2047);
    assert_eq!(val_i128(&es, "INT") as i32, -2047);
    assert_eq!(val_i128(&es, "INT") as i64, -2047);
    assert_eq!(val_i128(&es, "INT") as isize, -2047);
}

#[test]
fn test_copy() {
    let (es, _) = expand_ok(input_std());
    let copy = val_i128(&es, "INT");
    assert_eq!(copy as isize, -2047);
}

#[test]
fn test_local() {
    let (es, _) = expand_ok("const TEST: u16 | u8 = 35;");
    assert_eq!(val_i128(&es, "TEST") as u16, 35);
    assert_eq!(val_i128(&es, "TEST") as u8, 35);
    let tags: Vec<&str> = get(&es, "TEST").decl.variants.iter().map(|v| v.tag.as_str()).collect();
    assert_eq!(tags, vec!["u16", "u8"]);
}

#[test]
fn test_into() {
    let (es, out) = expand_ok(input_std());
    let pi: f32 = val_f64(&es, "PI") as f32;
    assert_eq!(pi, 3.1415927f32);
    assert!(out.contains("impl ::core::convert::Into< f32 > for PolymorphicConstantPi"));
}

#[test]
fn test_template() {
    let (es, _) = expand_ok(input_std());
    assert_eq!(get(&es, "PI").struct_name, "PolymorphicConstantPi");
    let times_pi = |value: f64| value * val_f64(&es, "PI");
    assert_eq!(times_pi(2.0), 6.283185307179586f64);
}

fn input_replace() -> &'static str {
    "const PI: f32 | f64 = 3.141592653589793;\n\
     const E: f32 | f64 = 2.7182818284590452353602874713526624977572;\n\
     const PI_E: f32 | f64 = PI * E;\n\
     // const PI2: f32 = (PI as f64).powf(2);\n\
     pub const UINT: u16 | u32 | u64 | usize | i16 | i32 | i64 | isize = 2047;\n\
     pub const INT: i16 | i32 | i64 | isize = -2047;\n\
     pub const WAT:i32 = UINT * INT;\n"
}

#[test]
fn tests_replace_test_const() {
    let (es, _) = expand_ok(input_replace());
    assert_eq!(val_f64(&es, "PI"), 3.141592653589793);
    assert_eq!(val_f64(&es, "E"), 2.718281828459045235360287471);
    assert_eq!(val_f64(&es, "PI_E"), 3.141592653589793 * 2.718281828459045235360287471);
    assert_eq!(
        val_f64(&es, "PI") as f32 * val_f64(&es, "PI") as f32,
        3.141592653589793 * 3.141592653589793
    );
    assert_eq!(val_i128(&es, "UINT") as u16, 2047);
    assert_eq!(val_i128(&es, "UINT") as u32, 2047);
    assert_eq!(val_i128(&es, "UINT") as u64, 2047);
    assert_eq!(val_i128(&es, "UINT") as usize, 2047);
    assert_eq!(val_i128(&es, "UINT") as i16, 2047);
    assert_eq!(val_i128(&es, "UINT") as i32, 2047);
    assert_eq!(val_i128(&es, "UINT") as i64, 2047);
    assert_eq!(val_i128(&es, "UINT") as isize, 2047);
    assert_eq!(val_i128(&es, "INT") as i16, -2047);
    assert_eq!(val_i128(&es, "INT") as i32, -2047);
    assert_eq!(val_i128(&es, "INT") as i64, -2047);
    assert_eq!(val_i128(&es, "INT") as isize, -2047);
}

#[test]
fn test_nz() {
    let (es, _) = expand_ok(
        "const NZ: nz_u16 | nz_u32 | nz_u64 | nz_usize | nz_i16 | nz_i32 | nz_i64 | nz_isize = 2047;",
    );
    let v = val_i128(&es, "NZ");
    assert_eq!(
        std::num::NonZeroU16::new(v as u16).unwrap(),
        std::num::NonZeroU16::new(2047).unwrap()
    );
    assert_eq!(
        std::num::NonZeroU32::new(v as u32).unwrap(),
        std::num::NonZeroU32::new(2047).unwrap()
    );
    assert_eq!(
        std::num::NonZeroU64::new(v as u64).unwrap(),
        std::num::NonZeroU64::new(2047).unwrap()
    );
    assert_eq!(
        std::num::NonZeroUsize::new(v as usize).unwrap(),
        std::num::NonZeroUsize::new(2047).unwrap()
    );
    assert_eq!(
        std::num::NonZeroI16::new(v as i16).unwrap(),
        std::num::NonZeroI16::new(2047).unwrap()
    );
    assert_eq!(
        std::num::NonZeroI32::new(v as i32).unwrap(),
        std::num::NonZeroI32::new(2047).unwrap()
    );
    assert_eq!(
        std::num::NonZeroI64::new(v as i64).unwrap(),
        std::num::NonZeroI64::new(2047).unwrap()
    );
    assert_eq!(
        std::num::NonZeroIsize::new(v as isize).unwrap(),
        std::num::NonZeroIsize::new(2047).unwrap()
    );
    let names: Vec<&str> =
        get(&es, "NZ").decl.variants.iter().map(|v| v.ty_text.as_str()).collect();
    assert!(names.contains(&"::core::num::NonZeroU16"));
}

// --- numeric rejection ---

#[test]
fn zero_for_non_zero_type_fails() {
    assert_eq!(polymorphic_constant("const A: nz_u8 = 0;").unwrap_err(), Error::ZeroValue);
    assert_eq!(
        polymorphic_constant("const FAILS: nz_u8 | nz_u16 | nz_u32 = 0;").unwrap_err(),
        Error::ZeroValue
    );
}

#[test]
fn negative_for_unsigned_type_fails() {
    assert_eq!(polymorphic_constant("const FAILS: i64 | u8 = -1;").unwrap_err(), Error::OutOfRange);
    assert_eq!(polymorphic_constant("const A: u128 = -1;").unwrap_err(), Error::OutOfRange);
}

#[test]
fn literal_beyond_integer_range_fails() {
    assert_eq!(
        polymorphic_constant("const FAILS: u64 | nz_i8 = 128;").unwrap_err(),
        Error::OutOfRange
    );
    assert_eq!(polymorphic_constant("const A: i8 = 127;").is_ok(), true);
    assert_eq!(polymorphic_constant("const A: i8 = -128;").is_ok(), true);
    assert_eq!(polymorphic_constant("const A: i8 = -129;").unwrap_err(), Error::OutOfRange);
    assert_eq!(
        polymorphic_constant("const A: u128 = 340282366920938463463374607431768211455;").is_ok(),
        true
    );
    assert_eq!(
        polymorphic_constant("const A: u128 = 340282366920938463463374607431768211456;")
            .unwrap_err(),
        Error::OutOfRange
    );
}

#[test]
fn float_beyond_finite_range_fails() {
    assert_eq!(
        polymorphic_constant("const FAILS: f32 | f64 = 3141592653589793238462643383279502884197.0;")
            .unwrap_err(),
        Error::OutOfRange
    );
    assert_eq!(
        polymorphic_constant("const A: f64 = 3141592653589793238462643383279502884197.0;").is_ok(),
        true
    );
    assert_eq!(polymorphic_constant("const A: f64 = 1e309;").unwrap_err(), Error::OutOfRange);
    assert_eq!(polymorphic_constant("const A: f64 = 1e308;").is_ok(), true);
    assert_eq!(
        polymorphic_constant("const A: f32 = 340282346638528859811704183484516925440.0;").is_ok(),
        true
    );
    assert_eq!(
        polymorphic_constant("const A: f32 = 340282346638528859811704183484516925441.0;")
            .unwrap_err(),
        Error::OutOfRange
    );
    assert_eq!(polymorphic_constant("const A: f32 = 0.5e-200;").is_ok(), true);
}

#[test]
fn float_precision_loss_is_allowed() {
    assert!(polymorphic_constant("const SUCCEEDS: f32 = 3.141592653589793238462643383279;").is_ok());
}

#[test]
fn literal_kind_must_match_type_kind() {
    assert_eq!(polymorphic_constant("const FAIL: i32 = 0.1;").unwrap_err(), Error::TypeMismatch);
    assert_eq!(polymorphic_constant("const FAIL: f32 = 0;").unwrap_err(), Error::TypeMismatch);
    assert_eq!(polymorphic_constant("const FAIL: nz_u8 = 1.5;").unwrap_err(), Error::TypeMismatch);
}

// --- cross references ---

#[test]
fn cross_reference_substitutes_earlier_constant() {
    let (es, _) = expand_ok("const A: i32 = 5; const B: i32 = A * 2;");
    assert_eq!(val_i128(&es, "B"), 10);
    let texts: Vec<&str> = get(&es, "B").init_subst.iter().map(|t| t.text.as_str()).collect();
    assert_eq!(texts, vec!["(", "5", ")", "*", "2"]);
}

#[test]
fn unknown_reference_passes_through_unchanged() {
    let (es, _) = expand_ok("const B: i32 = A * 2;");
    let texts: Vec<&str> = get(&es, "B").init_subst.iter().map(|t| t.text.as_str()).collect();
    assert_eq!(texts, vec!["A", "*", "2"]);
}

#[test]
fn later_declaration_is_not_visible_earlier() {
    let (es, _) = expand_ok("const B: i32 = A * 2; const A: i32 = 5;");
    let texts: Vec<&str> = get(&es, "B").init_subst.iter().map(|t| t.text.as_str()).collect();
    assert_eq!(texts, vec!["A", "*", "2"]);
}

#[test]
fn duplicate_name_fails() {
    assert_eq!(
        polymorphic_constant("const A: i32 = 1; const A: i32 = 2;").unwrap_err(),
        Error::DuplicateName
    );
}

#[test]
fn duplicate_tag_fails() {
    assert_eq!(
        polymorphic_constant("const A: i32 | i32 = 1;").unwrap_err(),
        Error::DuplicateTag
    );
}

// --- the end-to-end example ---

#[test]
fn example_height_width() {
    let (es, out) = expand_ok(
        "const HEIGHT: i8|u8|i16|u16|i32|u32 = 16; const WIDTH: i8|u8|i16|u16|i32|u32 = 32;",
    );
    assert_eq!(es.len(), 2);
    let size = val_i128(&es, "HEIGHT") as i16 * val_i128(&es, "WIDTH") as i16;
    assert_eq!(size, 16 * 32);
    let height_copy: i32 = val_i128(&es, "HEIGHT") as i32;
    assert_eq!(height_copy, 16);
    assert!(out.contains("struct PolymorphicConstantHeight"));
    assert!(out.contains("struct PolymorphicConstantWidth"));
    assert!(out.contains("const HEIGHT : PolymorphicConstantHeight"));
}

#[test]
fn one_conversion_per_variant() {
    let (es, out) = expand_ok("const HEIGHT: i8|u8|i16|u16|i32|u32 = 16;");
    assert_eq!(get(&es, "HEIGHT").decl.variants.len(), 6);
    let conversions = out.matches("fn into ( self )").count();
    assert_eq!(conversions, 6);
    for tag in ["i8", "u8", "i16", "u16", "i32", "u32"] {
        assert!(out.contains(&format!("impl ::core::convert::Into< {tag} > for PolymorphicConstantHeight")));
    }
}

#[test]
fn round_trip_extremes() {
    let (es, _) = expand_ok("const A: u8 = 255; const B: i8 = -128;");
    assert_eq!(val_i128(&es, "A") as u8, 255);
    assert_eq!(val_i128(&es, "B") as i8, -128);
}

// --- grammar ---

#[test]
fn syntax_errors_are_rejected() {
    assert_eq!(polymorphic_constant("const A i32 = 1;").unwrap_err(), Error::Syntax);
    assert_eq!(polymorphic_constant("const A: = 1;").unwrap_err(), Error::Syntax);
    assert_eq!(polymorphic_constant("const A: i32 = ;").unwrap_err(), Error::Syntax);
    assert_eq!(polymorphic_constant("const A: i32;").unwrap_err(), Error::Syntax);
    assert_eq!(polymorphic_constant("A: i32 = 1;").unwrap_err(), Error::Syntax);
    assert_eq!(polymorphic_constant("const \u{7}: i32 = 1;").unwrap_err(), Error::Syntax);
}

#[test]
fn empty_input_yields_empty_output() {
    let (es, out) = expand_ok("");
    assert!(es.is_empty());
    assert!(out.is_empty());
    let (es2, _) = expand_ok("   // only a comment\n");
    assert!(es2.is_empty());
}

#[test]
fn trailing_terminator_is_tolerated() {
    assert!(polymorphic_constant("const A: i32 = 1;").is_ok());
    assert!(polymorphic_constant("const A: i32 = 1").is_ok());
}

#[test]
fn attributes_and_visibility_pass_through() {
    let (es, out) = expand_ok("#[allow(dead_code)] pub const A: i32 = 7;");
    assert!(out.contains("# [ allow ( dead_code ) ]"));
    assert!(out.contains("pub struct PolymorphicConstantA"));
    assert!(out.contains("pub const A : PolymorphicConstantA"));
    assert_eq!(get(&es, "A").decl.vis.len(), 1);
}

#[test]
fn non_zero_construction_is_checked_in_output() {
    let (_, out) = expand_ok("const L: u8 | nz_u8 = 10;");
    assert!(out.contains("nz_u8 : ::core::num::NonZeroU8 :: new ( 10 ) . unwrap ( )"));
    assert!(out.contains("u8 : ( 10 ) as u8"));
}

#[test]
fn exponent_forms_are_single_literals() {
    let (es, _) = expand_ok("const A: f64 = 1e5; const B: f64 = 1e-5; const C: f64 = 2.5e+3;");
    assert_eq!(val_f64(&es, "A"), 1e5);
    assert_eq!(val_f64(&es, "B"), 1e-5);
    assert_eq!(val_f64(&es, "C"), 2.5e+3);
    assert_eq!(get(&es, "B").init_subst.len(), 1);
}

#[test]
fn prefixed_and_suffixed_literals_pass_through_whole() {
    let (es, out) = expand_ok("const A: i32 = 0x10; const B: u8 = 255u8;");
    assert_eq!(get(&es, "A").init_subst[0].text, "0x10");
    assert!(out.contains("( 0x10 ) as i32"));
    assert!(out.contains("( 255u8 ) as u8"));
}

#[test]
fn unknown_type_tags_are_passed_to_the_host() {
    let (es, out) = expand_ok("const A: MyNumber = 123456789123456789123456789123456789123;");
    assert_eq!(get(&es, "A").decl.variants[0].ty_text, "MyNumber");
    assert!(out.contains(") as MyNumber"));
}
