use proc_macro2::TokenStream;
use progenitor_impl::template::{put, quote_text};

fn parsed(text: &str) -> String {
    text.parse::<TokenStream>().unwrap().to_string()
}

#[test]
fn notation_reads_as_rust() {
    for text in [
        "",
        "pub fn inner(&self) -> & Inner { &self.inner }",
        "#[allow(unused_imports)] pub use super::Client;",
        "pub use progenitor_client::{ByteStream, Error, ResponseValue};",
        "fn f(x: & 'static str) -> Result<(), u8>",
        "a1 _b c_2 [x, y] (z)",
        "a.b(c)? ; d = e;",
    ] {
        assert_eq!(quote_text(text).to_string(), parsed(text));
    }
}

#[test]
fn exact_tokens() {
    assert_eq!(quote_text("a->b::c").to_string(), "a -> b :: c");
    assert_eq!(quote_text("f(x , [ y ])").to_string(), "f (x , [y])");
    assert_eq!(quote_text("'static").to_string(), "'static");
}

#[test]
fn open_groups_are_closed_at_the_end() {
    assert_eq!(quote_text("f(a[b").to_string(), parsed("f(a[b])"));
}

#[test]
fn digits_belong_to_words_only() {
    assert_eq!(quote_text("u8 8 x").to_string(), parsed("u8 x"));
    assert_eq!(quote_text("a ) b").to_string(), parsed("a b"));
}

#[test]
fn put_comes_at_the_end() {
    let mut stream = quote_text("a b");
    put(&mut stream, "c;");
    assert_eq!(stream.to_string(), parsed("a b c;"));
}
