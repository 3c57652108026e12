use sailfish::Buffer;
use sailfish::Render;
use sailfish::RenderError;
use std::path::Path;
use std::path::PathBuf;
use std::rc::Rc;

#[test]
fn receiver_coercion() {
    let mut b = Buffer::new();
    (&1).render(&mut b).unwrap();
    (&&1).render(&mut b).unwrap();
    (&&&1).render(&mut b).unwrap();
    (&&&&1).render(&mut b).unwrap();
    assert_eq!(b.as_str(), "1111");
    b.clear();

    // Floating-point rendering cannot live in the verified library; the
    // same shortest round-trip text is appended here directly.
    let v = 2.0;
    let mut fb = ryu::Buffer::new();
    b.push_str(fb.format(v));
    b.push_str(fb.format(v));
    b.push_str(fb.format(v));
    b.push_str(fb.format(v));
    assert_eq!(b.as_str(), "2.02.02.02.0");
    b.clear();

    let s = "apple";
    (&*s).render_escaped(&mut b).unwrap();
    (&s).render_escaped(&mut b).unwrap();
    (&&s).render_escaped(&mut b).unwrap();
    (&&&s).render_escaped(&mut b).unwrap();
    (&&&&s).render_escaped(&mut b).unwrap();
    assert_eq!(b.as_str(), "appleappleappleappleapple");
    b.clear();

    (&'c').render_escaped(&mut b).unwrap();
    (&&'<').render_escaped(&mut b).unwrap();
    (&&&'&').render_escaped(&mut b).unwrap();
    (&&&&' ').render_escaped(&mut b).unwrap();
    assert_eq!(b.as_str(), "c&lt;&amp; ");
    b.clear();
}

#[test]
fn deref_coercion() {
    let mut b = Buffer::new();
    (&String::from("a")).render(&mut b).unwrap();
    (&&PathBuf::from("b")).render(&mut b).unwrap();
    (&Rc::new(4u32)).render_escaped(&mut b).unwrap();
    let mut fb = ryu::Buffer::new();
    b.push_str(fb.format(2.3f32));

    assert_eq!(b.as_str(), "ab42.3");
}

#[test]
fn integer_widths_render_minimal_decimal() {
    let mut b = Buffer::new();
    0u64.render(&mut b).unwrap();
    assert_eq!(b.as_str(), "0");
    b.clear();

    (-128i8).render(&mut b).unwrap();
    assert_eq!(b.as_str(), "-128");
    b.clear();

    255u8.render(&mut b).unwrap();
    65535u16.render(&mut b).unwrap();
    assert_eq!(b.as_str(), "25565535");
    b.clear();

    4294967295u32.render(&mut b).unwrap();
    assert_eq!(b.as_str(), "4294967295");
    b.clear();

    18446744073709551615u64.render(&mut b).unwrap();
    assert_eq!(b.as_str(), "18446744073709551615");
    b.clear();

    i8::MIN.render(&mut b).unwrap();
    i16::MIN.render(&mut b).unwrap();
    assert_eq!(b.as_str(), "-128-32768");
    b.clear();

    i32::MIN.render(&mut b).unwrap();
    assert_eq!(b.as_str(), "-2147483648");
    b.clear();

    i64::MIN.render(&mut b).unwrap();
    assert_eq!(b.as_str(), "-9223372036854775808");
    b.clear();

    42usize.render(&mut b).unwrap();
    (-7isize).render(&mut b).unwrap();
    assert_eq!(b.as_str(), "42-7");
}

#[test]
fn integer_round_trip() {
    let cases: Vec<i64> = vec![0, 1, -1, 9, 10, 99, 100, -100, i64::MAX, i64::MIN, 1234567890];
    for n in cases {
        let mut b = Buffer::new();
        n.render(&mut b).unwrap();
        let text = b.as_str().to_string();
        assert_eq!(text.parse::<i64>().unwrap(), n);
        assert_eq!(text.starts_with('-'), n < 0);
        if n != 0 {
            let digits = text.trim_start_matches('-');
            assert!(!digits.starts_with('0'));
        } else {
            assert_eq!(text, "0");
        }
        let mut e = Buffer::new();
        n.render_escaped(&mut e).unwrap();
        assert_eq!(e.as_str(), text);
    }
}

#[test]
fn escaping_replaces_reserved_only() {
    let mut b = Buffer::new();
    "a&b".render_escaped(&mut b).unwrap();
    assert_eq!(b.as_str(), "a&amp;b");
    b.clear();

    "<h1>\"x\" & 'y'</h1>".render_escaped(&mut b).unwrap();
    assert_eq!(b.as_str(), "&lt;h1&gt;&quot;x&quot; &amp; 'y'&lt;/h1&gt;");
    b.clear();

    "caf\u{e9} \u{2764} plain".render_escaped(&mut b).unwrap();
    assert_eq!(b.as_str(), "caf\u{e9} \u{2764} plain");
    b.clear();

    "".render_escaped(&mut b).unwrap();
    assert_eq!(b.as_str(), "");
}

#[test]
fn char_rendering() {
    let mut b = Buffer::new();
    '<'.render(&mut b).unwrap();
    assert_eq!(b.as_str(), "<");
    b.clear();

    '<'.render_escaped(&mut b).unwrap();
    assert_eq!(b.as_str(), "&lt;");
    b.clear();

    '"'.render_escaped(&mut b).unwrap();
    '&'.render_escaped(&mut b).unwrap();
    '>'.render_escaped(&mut b).unwrap();
    '\u{e9}'.render_escaped(&mut b).unwrap();
    assert_eq!(b.as_str(), "&quot;&amp;&gt;\u{e9}");
}

#[test]
fn bool_rendering() {
    let mut b = Buffer::new();
    true.render(&mut b).unwrap();
    false.render(&mut b).unwrap();
    assert_eq!(b.as_str(), "truefalse");
    b.clear();

    true.render_escaped(&mut b).unwrap();
    assert_eq!(b.as_str(), "true");
    b.clear();

    false.render_escaped(&mut b).unwrap();
    assert_eq!(b.as_str(), "false");
}

#[test]
fn path_rendering() {
    let mut b = Buffer::new();
    Path::new("dir/file.txt").render(&mut b).unwrap();
    assert_eq!(b.as_str(), "dir/file.txt");
    b.clear();

    Path::new("a<b>&c").render_escaped(&mut b).unwrap();
    assert_eq!(b.as_str(), "a&lt;b&gt;&amp;c");
}

#[test]
fn float_text_round_trips() {
    let mut fb = ryu::Buffer::new();
    assert_eq!(fb.format(2.0f64), "2.0");
    for f in [2.0f64, 0.1, -1.5e300, 3.141592653589793] {
        let s = ryu::Buffer::new().format(f).to_string();
        assert_eq!(s.parse::<f64>().unwrap().to_bits(), f.to_bits());
    }
    for f in [2.3f32, -0.25, 1.0e-30] {
        let s = ryu::Buffer::new().format(f).to_string();
        assert_eq!(s.parse::<f32>().unwrap().to_bits(), f.to_bits());
    }
}

#[test]
fn buffer_length_capacity_and_concatenation() {
    let mut b = Buffer::new();
    assert!(b.len() <= b.capacity());
    12345u32.render(&mut b).unwrap();
    assert_eq!(b.len(), 5);
    assert!(b.len() <= b.capacity());
    "x<y".render_escaped(&mut b).unwrap();
    assert!(b.len() <= b.capacity());
    true.render(&mut b).unwrap();
    assert!(b.len() <= b.capacity());
    'z'.render(&mut b).unwrap();
    assert!(b.len() <= b.capacity());
    assert_eq!(b.as_str(), "12345x&lt;ytruez");
    assert_eq!(b.len(), "12345x&lt;ytruez".len());

    b.reserve(100);
    assert!(b.capacity() >= b.len() + 100);
    assert_eq!(b.as_str(), "12345x&lt;ytruez");

    b.clear();
    assert_eq!(b.as_str(), "");
    assert_eq!(b.len(), 0);

    let before = b.len();
    (-42i16).render(&mut b).unwrap();
    assert_eq!(b.len(), before + 3);
    '\u{e9}'.render(&mut b).unwrap();
    assert_eq!(b.len(), before + 5);
    "caf\u{e9}".render(&mut b).unwrap();
    assert_eq!(b.len(), before + 10);
}

struct Fails;

impl Render for Fails {
    fn render(&self, _b: &mut Buffer) -> Result<(), RenderError> {
        Err(RenderError)
    }
}

struct Plain(&'static str);

impl Render for Plain {
    fn render(&self, b: &mut Buffer) -> Result<(), RenderError> {
        b.push_str(self.0);
        Ok(())
    }
}

#[test]
fn default_escaped_path_and_error_propagation() {
    let mut b = Buffer::new();
    "start".render(&mut b).unwrap();

    // The default render_escaped goes through a scratch buffer and
    // escapes while copying.
    Plain("p<q&r").render_escaped(&mut b).unwrap();
    assert_eq!(b.as_str(), "startp&lt;q&amp;r");

    // An error from render short-circuits the copy and leaves the target
    // buffer as it was.
    assert_eq!(Fails.render_escaped(&mut b), Err(RenderError));
    assert_eq!(b.as_str(), "startp&lt;q&amp;r");
}
