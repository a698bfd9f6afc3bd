use sailfish::float::{
    classify_binary32, classify_binary64, render_binary32, render_binary32_escaped,
    render_binary64, render_binary64_escaped, FloatKind,
};
use sailfish::render::{escape_rendered, render_path, render_path_escaped};
use sailfish::{Buffer, Render, RenderError};
use std::borrow::Cow;
use std::num::Wrapping;
use std::path::{Path, PathBuf};
use std::rc::Rc;
use std::sync::Arc;

/// Renders a 32-bit float as a caller with a formatter at hand does.
fn render_single(v: f32, b: &mut Buffer) {
    let mut formatter = ryu::Buffer::new();
    let digits = if v.is_finite() { formatter.format_finite(v) } else { "" };
    render_binary32(v.to_bits(), digits, b);
}

/// Renders a 64-bit float as a caller with a formatter at hand does.
fn render_double(v: f64, b: &mut Buffer) {
    let mut formatter = ryu::Buffer::new();
    let digits = if v.is_finite() { formatter.format_finite(v) } else { "" };
    render_binary64(v.to_bits(), digits, b);
}

/// Renders a 32-bit float escaped as a caller with a formatter at hand does.
fn render_single_escaped(v: f32, b: &mut Buffer) {
    let mut formatter = ryu::Buffer::new();
    let digits = if v.is_finite() { formatter.format_finite(v) } else { "" };
    render_binary32_escaped(v.to_bits(), digits, b);
}

/// Renders a 64-bit float escaped as a caller with a formatter at hand does.
fn render_double_escaped(v: f64, b: &mut Buffer) {
    let mut formatter = ryu::Buffer::new();
    let digits = if v.is_finite() { formatter.format_finite(v) } else { "" };
    render_binary64_escaped(v.to_bits(), digits, b);
}

fn raw<T: Render + ?Sized>(value: &T) -> String {
    let mut b = Buffer::new();
    value.render(&mut b).unwrap();
    b.into_string()
}

fn escaped<T: Render + ?Sized>(value: &T) -> String {
    let mut b = Buffer::new();
    value.render_escaped(&mut b).unwrap();
    b.into_string()
}

#[test]
fn receiver_coercion() {
    let mut b = Buffer::new();
    Render::render(&1, &mut b).unwrap();
    Render::render(&&1, &mut b).unwrap();
    Render::render(&&&1, &mut b).unwrap();
    Render::render(&&&&1, &mut b).unwrap();
    assert_eq!(b.as_str(), "1111");
    b.clear();

    Render::render(&true, &mut b).unwrap();
    Render::render(&&false, &mut b).unwrap();
    Render::render(&&&true, &mut b).unwrap();
    Render::render(&&&&false, &mut b).unwrap();
    assert_eq!(b.as_str(), "truefalsetruefalse");
    b.clear();

    let s = "apple";
    Render::render_escaped(&s, &mut b).unwrap();
    Render::render_escaped(&s, &mut b).unwrap();
    Render::render_escaped(&&s, &mut b).unwrap();
    Render::render_escaped(&&&s, &mut b).unwrap();
    Render::render_escaped(&&&&s, &mut b).unwrap();
    assert_eq!(b.as_str(), "appleappleappleappleapple");
    b.clear();

    Render::render_escaped(&'c', &mut b).unwrap();
    Render::render_escaped(&&'<', &mut b).unwrap();
    Render::render_escaped(&&&'&', &mut b).unwrap();
    Render::render_escaped(&&&&' ', &mut b).unwrap();
    assert_eq!(b.as_str(), "c&lt;&amp; ");
    b.clear();
}

#[test]
fn deref_coercion() {
    let mut b = Buffer::new();
    Render::render(&String::from("a"), &mut b).unwrap();
    Render::render(&&PathBuf::from("b"), &mut b).unwrap();
    Render::render_escaped(&Rc::new(4u32), &mut b).unwrap();
    render_single_escaped(*Rc::new(2.3f32), &mut b);

    assert_eq!(b.as_str(), "ab42.3");
}

#[test]
fn float() {
    let mut b = Buffer::new();

    render_double_escaped(0.0f64, &mut b);
    render_double_escaped(std::f64::INFINITY, &mut b);
    render_double_escaped(std::f64::NEG_INFINITY, &mut b);
    render_double_escaped(std::f64::NAN, &mut b);
    assert_eq!(b.as_str(), "0.0inf-infNaN");
    b.clear();

    render_single_escaped(0.0f32, &mut b);
    render_single_escaped(std::f32::INFINITY, &mut b);
    render_single_escaped(std::f32::NEG_INFINITY, &mut b);
    render_single_escaped(std::f32::NAN, &mut b);
    assert_eq!(b.as_str(), "0.0inf-infNaN");
}

#[test]
fn float_kinds_by_bits() {
    assert_eq!(classify_binary32(0.0f32.to_bits()), FloatKind::Finite);
    assert_eq!(classify_binary32((-0.0f32).to_bits()), FloatKind::Finite);
    assert_eq!(classify_binary32(f32::MAX.to_bits()), FloatKind::Finite);
    assert_eq!(classify_binary32(f32::MIN_POSITIVE.to_bits()), FloatKind::Finite);
    assert_eq!(classify_binary32(0x7f80_0000), FloatKind::Infinite);
    assert_eq!(classify_binary32(0xff80_0000), FloatKind::NegInfinite);
    assert_eq!(classify_binary32(0x7fc0_0000), FloatKind::Nan);
    assert_eq!(classify_binary32(0xff80_0001), FloatKind::Nan);
    assert_eq!(classify_binary32(f32::NAN.to_bits()), FloatKind::Nan);

    assert_eq!(classify_binary64(1.5f64.to_bits()), FloatKind::Finite);
    assert_eq!(classify_binary64(f64::MAX.to_bits()), FloatKind::Finite);
    assert_eq!(classify_binary64(0x7ff0_0000_0000_0000), FloatKind::Infinite);
    assert_eq!(classify_binary64(0xfff0_0000_0000_0000), FloatKind::NegInfinite);
    assert_eq!(classify_binary64(0x7ff0_0000_0000_0001), FloatKind::Nan);
    assert_eq!(classify_binary64(f64::NAN.to_bits()), FloatKind::Nan);
}

#[test]
fn float_reserves_before_digits() {
    let mut b = Buffer::new();
    render_single(1.5f32, &mut b);
    assert_eq!(b.as_str(), "1.5");
    assert_eq!(b.capacity(), 16);
    let mut b = Buffer::new();
    render_double(-2.25f64, &mut b);
    assert_eq!(b.as_str(), "-2.25");
    assert_eq!(b.capacity(), 24);
    // a literal is appended as any text is
    let mut b = Buffer::new();
    render_double(f64::NAN, &mut b);
    assert_eq!(b.capacity(), 3);
}

#[test]
fn float_digits_are_ignored_unless_finite() {
    let mut b = Buffer::new();
    render_binary32(0x7f80_0000, "12.5", &mut b);
    assert_eq!(b.as_str(), "inf");
    render_binary32(0x4148_0000, "12.5", &mut b);
    assert_eq!(b.as_str(), "inf12.5");
}

#[test]
fn bool_renders_literals() {
    assert_eq!(raw(&true), "true");
    assert_eq!(raw(&false), "false");
    assert_eq!(escaped(&true), "true");
    assert_eq!(escaped(&false), "false");
}

#[test]
fn char_renders_and_escapes() {
    assert_eq!(raw(&'<'), "<");
    assert_eq!(raw(&'é'), "é");
    assert_eq!(escaped(&'"'), "&quot;");
    assert_eq!(escaped(&'&'), "&amp;");
    assert_eq!(escaped(&'<'), "&lt;");
    assert_eq!(escaped(&'>'), "&gt;");
    assert_eq!(escaped(&'\''), "&#039;");
    assert_eq!(escaped(&'x'), "x");
    assert_eq!(escaped(&'\u{1F600}'), "\u{1F600}");
}

#[test]
fn text_renders_verbatim_and_escapes() {
    let owned = String::from("<b>\"Tom\" & 'Jerry'</b>");
    assert_eq!(raw(&owned), "<b>\"Tom\" & 'Jerry'</b>");
    assert_eq!(escaped(&owned), "&lt;b&gt;&quot;Tom&quot; &amp; &#039;Jerry&#039;&lt;/b&gt;");
    let borrowed: &str = "a < b";
    assert_eq!(raw(&borrowed), "a < b");
    assert_eq!(escaped(&borrowed), "a &lt; b");
}

#[test]
fn unsigned_integers_render_in_base_ten() {
    assert_eq!(raw(&0u8), "0");
    assert_eq!(raw(&7u8), "7");
    assert_eq!(raw(&u8::MAX), "255");
    assert_eq!(raw(&0u16), "0");
    assert_eq!(raw(&1000u16), "1000");
    assert_eq!(raw(&u16::MAX), "65535");
    assert_eq!(raw(&0u32), "0");
    assert_eq!(raw(&100_000u32), "100000");
    assert_eq!(raw(&u32::MAX), "4294967295");
    assert_eq!(raw(&0u64), "0");
    assert_eq!(raw(&10_000_000_000u64), "10000000000");
    assert_eq!(raw(&u64::MAX), "18446744073709551615");
    assert_eq!(raw(&0u128), "0");
    assert_eq!(raw(&100_000_000_000_000_000_000u128), "100000000000000000000");
    assert_eq!(raw(&u128::MAX), "340282366920938463463374607431768211455");
    assert_eq!(raw(&0usize), "0");
    assert_eq!(raw(&usize::MAX), usize::MAX.to_string());
}

#[test]
fn signed_integers_render_with_sign() {
    assert_eq!(raw(&0i8), "0");
    assert_eq!(raw(&-1i8), "-1");
    assert_eq!(raw(&i8::MIN), "-128");
    assert_eq!(raw(&i8::MAX), "127");
    assert_eq!(raw(&i16::MIN), "-32768");
    assert_eq!(raw(&i16::MAX), "32767");
    assert_eq!(raw(&-2953i32), "-2953");
    assert_eq!(raw(&i32::MIN), "-2147483648");
    assert_eq!(raw(&i32::MAX), "2147483647");
    assert_eq!(raw(&i64::MIN), "-9223372036854775808");
    assert_eq!(raw(&i64::MAX), "9223372036854775807");
    assert_eq!(raw(&i128::MIN), "-170141183460469231731687303715884105728");
    assert_eq!(raw(&i128::MAX), "170141183460469231731687303715884105727");
    assert_eq!(raw(&-10i128), "-10");
    assert_eq!(raw(&isize::MIN), isize::MIN.to_string());
    assert_eq!(raw(&isize::MAX), isize::MAX.to_string());
    assert_eq!(raw(&-42isize), "-42");
}

#[test]
fn integers_escape_as_they_render() {
    assert_eq!(escaped(&u8::MAX), raw(&u8::MAX));
    assert_eq!(escaped(&i8::MIN), raw(&i8::MIN));
    assert_eq!(escaped(&u16::MAX), raw(&u16::MAX));
    assert_eq!(escaped(&i16::MIN), raw(&i16::MIN));
    assert_eq!(escaped(&u32::MAX), raw(&u32::MAX));
    assert_eq!(escaped(&i32::MIN), raw(&i32::MIN));
    assert_eq!(escaped(&u64::MAX), raw(&u64::MAX));
    assert_eq!(escaped(&i64::MIN), raw(&i64::MIN));
    assert_eq!(escaped(&u128::MAX), raw(&u128::MAX));
    assert_eq!(escaped(&i128::MIN), raw(&i128::MIN));
    assert_eq!(escaped(&usize::MAX), raw(&usize::MAX));
    assert_eq!(escaped(&isize::MIN), raw(&isize::MIN));
}

#[test]
fn integers_match_the_standard_form_across_the_range() {
    let mut v: u64 = 1;
    while v < u64::MAX / 7 {
        assert_eq!(raw(&v), v.to_string());
        assert_eq!(raw(&(v as i64)), (v as i64).to_string());
        assert_eq!(raw(&-(v as i64)), (-(v as i64)).to_string());
        assert_eq!(raw(&(v as u32)), (v as u32).to_string());
        assert_eq!(raw(&(v as i32)), (v as i32).to_string());
        assert_eq!(raw(&(v as u16)), (v as u16).to_string());
        assert_eq!(raw(&(v as i16)), (v as i16).to_string());
        assert_eq!(raw(&(v as u128 * v as u128)), (v as u128 * v as u128).to_string());
        assert_eq!(raw(&-((v as u128 * v as u128 / 2) as i128)), (-((v as u128 * v as u128 / 2) as i128)).to_string());
        v = v * 7 + 3;
    }
    for n in 0..=u8::MAX {
        assert_eq!(raw(&n), n.to_string());
        assert_eq!(raw(&(n as i8)), (n as i8).to_string());
    }
}

#[test]
fn integer_reserves_its_longest_text() {
    let mut b = Buffer::new();
    7u8.render(&mut b).unwrap();
    assert_eq!((b.len(), b.capacity()), (1, 3));
    let mut b = Buffer::new();
    (-7i8).render(&mut b).unwrap();
    assert_eq!((b.len(), b.capacity()), (2, 4));
    let mut b = Buffer::new();
    7u16.render(&mut b).unwrap();
    assert_eq!(b.capacity(), 5);
    let mut b = Buffer::new();
    7i16.render(&mut b).unwrap();
    assert_eq!(b.capacity(), 6);
    let mut b = Buffer::new();
    7u32.render(&mut b).unwrap();
    assert_eq!(b.capacity(), 10);
    let mut b = Buffer::new();
    7i32.render(&mut b).unwrap();
    assert_eq!(b.capacity(), 11);
    let mut b = Buffer::new();
    7u64.render(&mut b).unwrap();
    assert_eq!(b.capacity(), 20);
    let mut b = Buffer::new();
    7i64.render(&mut b).unwrap();
    assert_eq!(b.capacity(), 21);
    let mut b = Buffer::new();
    7u128.render(&mut b).unwrap();
    assert_eq!(b.capacity(), 39);
    let mut b = Buffer::new();
    7i128.render_escaped(&mut b).unwrap();
    assert_eq!(b.capacity(), 40);
    let word = if usize::MAX as u128 > u32::MAX as u128 { 20 } else { 10 };
    let mut b = Buffer::new();
    7usize.render(&mut b).unwrap();
    assert_eq!(b.capacity(), word);
    let mut b = Buffer::new();
    7isize.render(&mut b).unwrap();
    assert_eq!(b.capacity(), word + 1);
    // room enough: nothing grows
    let mut b = Buffer::with_capacity(64);
    u64::MAX.render(&mut b).unwrap();
    assert_eq!((b.len(), b.capacity()), (20, 64));
}

#[test]
fn integer_appends_after_content() {
    let mut b = Buffer::from("n = ");
    (-12345i32).render(&mut b).unwrap();
    b.push_str(", m = ");
    u64::MAX.render_escaped(&mut b).unwrap();
    assert_eq!(b.as_str(), "n = -12345, m = 18446744073709551615");
}

#[test]
fn wrappers_delegate() {
    assert_eq!(raw(&Box::new(5u8)), "5");
    assert_eq!(raw(&Rc::new(-5i64)), "-5");
    assert_eq!(raw(&Arc::new('x')), "x");
    assert_eq!(escaped(&Box::new('<')), "&lt;");
    assert_eq!(escaped(&Rc::new(String::from("a&b"))), "a&amp;b");
    assert_eq!(escaped(&Arc::new("a>b")), "a&gt;b");
    assert_eq!(raw(&Wrapping(250u8)), "250");
    assert_eq!(escaped(&Wrapping(-3i32)), "-3");
    let mut n = 17u16;
    assert_eq!(raw(&&mut n), "17");
    assert_eq!(escaped(&&mut n), "17");
    let boxed: Box<dyn Render> = Box::new(true);
    assert_eq!(raw(&boxed), "true");
}

#[test]
fn cow_renders_borrowed_and_owned() {
    let text = String::from("a<b");
    let borrowed: Cow<String> = Cow::Borrowed(&text);
    let owned: Cow<String> = Cow::Owned(String::from("c>d"));
    assert_eq!(raw(&borrowed), "a<b");
    assert_eq!(escaped(&borrowed), "a&lt;b");
    assert_eq!(raw(&owned), "c>d");
    assert_eq!(escaped(&owned), "c&gt;d");
    let number: Cow<u32> = Cow::Owned(9);
    assert_eq!(raw(&number), "9");
}

#[test]
fn paths_render_as_lossy_text() {
    let owned = PathBuf::from("dir/a&b.txt");
    assert_eq!(raw(&owned), "dir/a&b.txt");
    assert_eq!(escaped(&owned), "dir/a&amp;b.txt");
    let borrowed: &Path = Path::new("<root>/x");
    assert_eq!(raw(borrowed), "<root>/x");
    assert_eq!(escaped(borrowed), "&lt;root&gt;/x");
}

struct Shout(&'static str);

impl Render for Shout {
    fn render(&self, b: &mut Buffer) -> Result<(), RenderError> {
        b.push_str(self.0);
        b.push('!');
        Ok(())
    }
}

struct Broken;

impl Render for Broken {
    fn render(&self, b: &mut Buffer) -> Result<(), RenderError> {
        b.push_str("<partial>");
        Err(RenderError::Msg(String::from("no value")))
    }
}

#[test]
fn default_escape_goes_through_a_buffer_of_its_own() {
    let mut b = Buffer::from("> ");
    Shout("a<b").render_escaped(&mut b).unwrap();
    assert_eq!(b.as_str(), "> a&lt;b!");
    assert_eq!(raw(&Shout("a<b")), "a<b!");
    assert_eq!(escaped(&Rc::new(Shout("\"q\""))), "&quot;q&quot;!");
}

#[test]
fn failed_render_is_reported_and_escape_leaves_the_buffer() {
    let mut b = Buffer::from("kept");
    match Broken.render_escaped(&mut b) {
        Err(RenderError::Msg(message)) => assert_eq!(message, "no value"),
        Ok(()) => panic!("the render fails"),
    }
    assert_eq!(b.as_str(), "kept");
    assert_eq!(b.capacity(), 4);
    assert!((&&Broken).render(&mut b).is_err());
    assert!(Box::new(Broken).render_escaped(&mut b).is_err());
}

#[test]
fn checked_path_render_says_whether_it_did() {
    let path = Path::new("a&b/<c>");
    let mut b = Buffer::from("at ");
    assert!(render_path(path, &mut b));
    assert_eq!(b.as_str(), "at a&b/<c>");
    assert!(render_path_escaped(path, &mut b));
    assert_eq!(b.as_str(), "at a&b/<c>a&amp;b/&lt;c&gt;");
    assert!(render_path(PathBuf::from("x").as_path(), &mut b));
    assert_eq!(b.as_str(), "at a&b/<c>a&amp;b/&lt;c&gt;x");
}

#[test]
fn float_renders_raw_as_escaped() {
    let singles = [0.0f32, -0.0, 1.5, -2.3, 1.0e-10, 3.4e38, f32::INFINITY, f32::NEG_INFINITY, f32::NAN];
    for v in singles {
        let mut raw = Buffer::from("x");
        let mut escaped = Buffer::from("x");
        render_single(v, &mut raw);
        render_single_escaped(v, &mut escaped);
        assert_eq!(raw.as_str(), escaped.as_str());
        assert_eq!(raw.capacity(), escaped.capacity());
    }
    let doubles = [0.0f64, -0.0, 1.5, -2.3, 1.0e-300, 1.7e308, f64::INFINITY, f64::NEG_INFINITY, f64::NAN];
    for v in doubles {
        let mut raw = Buffer::from("x");
        let mut escaped = Buffer::from("x");
        render_double(v, &mut raw);
        render_double_escaped(v, &mut escaped);
        assert_eq!(raw.as_str(), escaped.as_str());
        assert_eq!(raw.capacity(), escaped.capacity());
    }
    let mut b = Buffer::new();
    render_double(0.0, &mut b);
    render_single(f32::INFINITY, &mut b);
    render_single(f32::NEG_INFINITY, &mut b);
    render_double(f64::NAN, &mut b);
    assert_eq!(b.as_str(), "0.0inf-infNaN");
}

#[test]
fn float_escapes_digits_that_are_special() {
    let mut b = Buffer::new();
    render_binary32_escaped(0x4148_0000, "<12.5>", &mut b);
    assert_eq!(b.as_str(), "&lt;12.5&gt;");
    render_binary64_escaped(0x7ff0_0000_0000_0000, "<12.5>", &mut b);
    assert_eq!(b.as_str(), "&lt;12.5&gt;inf");
}

#[test]
fn float_capacity_follows_the_reservation() {
    // within the reservation: the capacity is that of the reservation
    let mut b = Buffer::from("ab");
    render_single(1.5, &mut b);
    assert_eq!((b.len(), b.capacity()), (5, 18));
    let mut b = Buffer::from("ab");
    render_double_escaped(1.5, &mut b);
    assert_eq!((b.len(), b.capacity()), (5, 26));
    // room enough: nothing grows
    let mut b = Buffer::with_capacity(64);
    render_double(-1.25e-7, &mut b);
    assert_eq!(b.capacity(), 64);
    // a literal grows the buffer as any text does
    let mut b = Buffer::from("ab");
    render_single(f32::NEG_INFINITY, &mut b);
    assert_eq!((b.len(), b.capacity()), (6, 6));
}

#[test]
fn char_and_bool_grow_as_their_text_does() {
    let mut b = Buffer::new();
    'x'.render(&mut b).unwrap();
    assert_eq!(b.capacity(), 1);
    'é'.render(&mut b).unwrap();
    assert_eq!(b.capacity(), 3);
    let mut b = Buffer::new();
    '<'.render_escaped(&mut b).unwrap();
    assert_eq!(b.capacity(), 4);
    '"'.render_escaped(&mut b).unwrap();
    assert_eq!(b.capacity(), 10);
    let mut b = Buffer::new();
    true.render(&mut b).unwrap();
    assert_eq!(b.capacity(), 4);
    false.render_escaped(&mut b).unwrap();
    assert_eq!(b.capacity(), 9);
    let mut b = Buffer::new();
    false.render(&mut b).unwrap();
    assert_eq!(b.capacity(), 5);
}

#[test]
fn escaped_text_grows_piece_by_piece() {
    // "a", then "&lt;", then "b": 1, then 1 + 4, then twice that
    let mut b = Buffer::new();
    "a<b".render_escaped(&mut b).unwrap();
    assert_eq!((b.len(), b.capacity()), (6, 10));
    let mut b = Buffer::with_capacity(6);
    String::from("a<b").render_escaped(&mut b).unwrap();
    assert_eq!((b.len(), b.capacity()), (6, 6));
}

#[test]
fn escape_rendered_hands_on_the_outcome() {
    let rendered = Buffer::from("a<b");
    let mut b = Buffer::from("kept");
    let failed = escape_rendered(Err(RenderError::Msg(String::from("lost"))), &rendered, &mut b);
    match failed {
        Err(RenderError::Msg(message)) => assert_eq!(message, "lost"),
        Ok(()) => panic!("the error is handed on"),
    }
    assert_eq!(b.as_str(), "kept");
    assert_eq!((b.len(), b.capacity()), (4, 4));
    assert!(escape_rendered(Ok(()), &rendered, &mut b).is_ok());
    assert_eq!(b.as_str(), "kepta&lt;b");
}

#[test]
fn failed_escaped_render_leaves_the_buffer_through_wrappers() {
    let mut b = Buffer::with_capacity(32);
    b.push_str("kept");
    assert!((&Broken).render_escaped(&mut b).is_err());
    assert!(Rc::new(Broken).render_escaped(&mut b).is_err());
    assert!(Arc::new(Box::new(Broken)).render_escaped(&mut b).is_err());
    assert_eq!(b.as_str(), "kept");
    assert_eq!((b.len(), b.capacity()), (4, 32));
}
