use noted::linker::{DocToken, DocTokenizer, LinkedDocument};

fn pages(entries: &[(&str, &str)]) -> Vec<(String, String)> {
    entries.iter().map(|(k, v)| ((*k).to_owned(), (*v).to_owned())).collect()
}

#[test]
fn it_works() {
    let doctext = "I would like to test the system. This is that test.";
    let pages = pages(&[("test", "/test.html"), ("the system", "/system.html")]);
    let doc = LinkedDocument::new(doctext, &pages);
    assert_eq!(
        doc.get_html(),
        r#"<p>I would like to <a href="/test.html">test</a> <a href="/system.html">the system</a>. This is that <a href="/test.html">test</a>.</p>
"#
    );
    assert_eq!(
        doc.get_md(),
        r#"I would like to [test](/test.html) [the system](/system.html). This is that [test](/test.html)."#
    );
}

#[test]
fn phrases_match_case_insensitively() {
    // the page table is keyed by lowercase names; an uppercase phrase in
    // the document still links
    let pages = pages(&[("rust", "/rust.html")]);
    let doc = LinkedDocument::new("We like Rust a lot.", &pages);
    assert_eq!(doc.get_md(), "We like [Rust](/rust.html) a lot.");
}

#[test]
fn unmatched_text_passes_through() {
    let pages = pages(&[("nothing", "/nothing.html")]);
    let text = "Plain words; none of them known.";
    let doc = LinkedDocument::new(text, &pages);
    assert_eq!(doc.get_md(), text);
}

#[test]
fn tokenizer_cuts_words_and_delimiters() {
    let mut tok = DocTokenizer::new("ab, c");
    let mut texts: Vec<String> = Vec::new();
    let mut words: usize = 0;
    while let Some(t) = tok.next() {
        match &t {
            DocToken::Word(w) => {
                words += 1;
                texts.push(w.clone());
            }
            DocToken::Delimiter(d) => texts.push(d.clone()),
        }
    }
    assert_eq!(texts, vec!["ab", ",", " ", "c"]);
    assert_eq!(words, 2);
}

#[test]
fn tokenizer_with_custom_delimiters() {
    let mut tok = DocTokenizer::new_with_delimiters("a-b c", vec!['-']);
    let mut texts: Vec<String> = Vec::new();
    while let Some(t) = tok.next() {
        match &t {
            DocToken::Word(w) => texts.push(w.clone()),
            DocToken::Delimiter(d) => texts.push(d.clone()),
        }
    }
    assert_eq!(texts, vec!["a", "-", "b c"]);
}

#[test]
fn multibyte_text_passes_through() {
    let pages = pages(&[("café", "/cafe.html")]);
    let doc = LinkedDocument::new("Zum Café gehen wir gern.", &pages);
    assert_eq!(doc.get_md(), "Zum [Café](/cafe.html) gehen wir gern.");
}
