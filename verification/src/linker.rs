//! Turning a plain document into a linked one: phrases that name a known
//! page become links to it.
//!
//! The document is cut into word and delimiter tokens; a sliding window of
//! recent tokens is searched, shortest suffix first, for a phrase whose
//! lowercase form names a page. Every character of the document survives
//! into the parts, in order: rendering the parts back as plain text gives
//! the document exactly. The whole decomposition is fixed by a
//! specification fold over the token stream ([`spec_linked_parts`]), so
//! the parts — and the markdown and HTML rendered from them — are a
//! function of the document and the page table alone.

use vstd::prelude::*;

verus! {

/// One token of the document: a maximal run of non-delimiter characters,
/// or a single delimiter character.
pub enum DocToken {
    Word(String),
    Delimiter(String),
}

/// The characters a token covers.
pub open spec fn token_text(t: DocToken) -> Seq<char> {
    match t {
        DocToken::Word(s) => s@,
        DocToken::Delimiter(s) => s@,
    }
}

/// The characters a run of tokens covers.
pub open spec fn tokens_text(ts: Seq<DocToken>) -> Seq<char>
    decreases ts.len(),
{
    if ts.len() == 0 {
        Seq::empty()
    } else {
        token_text(ts[0]) + tokens_text(ts.skip(1))
    }
}

proof fn lemma_tokens_text_concat(a: Seq<DocToken>, b: Seq<DocToken>)
    ensures
        tokens_text(a + b) == tokens_text(a) + tokens_text(b),
    decreases a.len(),
{
    if a.len() == 0 {
        assert(a + b =~= b);
        assert(tokens_text(a) + tokens_text(b) =~= tokens_text(b));
    } else {
        assert((a + b).len() > 0);
        assert((a + b)[0] == a[0]);
        assert((a + b).skip(1) =~= a.skip(1) + b);
        lemma_tokens_text_concat(a.skip(1), b);
        assert(token_text(a[0]) + (tokens_text(a.skip(1)) + tokens_text(b)) =~= (token_text(a[0])
            + tokens_text(a.skip(1))) + tokens_text(b));
    }
}

proof fn lemma_tokens_text_push(ts: Seq<DocToken>, t: DocToken)
    ensures
        tokens_text(ts.push(t)) == tokens_text(ts) + token_text(t),
{
    assert(ts.push(t) =~= ts + seq![t]);
    lemma_tokens_text_concat(ts, seq![t]);
    assert(seq![t].skip(1) =~= Seq::<DocToken>::empty());
    assert(tokens_text(seq![t]) == token_text(t) + tokens_text(Seq::<DocToken>::empty()));
    assert(token_text(t) + Seq::<char>::empty() =~= token_text(t));
}

/// A token of the specification tokenizer: its characters, and whether it
/// is a word or a single delimiter.
pub struct SpecToken {
    pub text: Seq<char>,
    pub word: bool,
}

/// The end of the word starting at `i`: the first position at or after it
/// holding a delimiter, or the document's end.
pub open spec fn spec_word_end(doc: Seq<char>, delims: Seq<char>, i: int) -> int
    decreases doc.len() - i,
{
    if i < 0 || i >= doc.len() {
        doc.len() as int
    } else if delims.contains(doc[i]) {
        i
    } else {
        spec_word_end(doc, delims, i + 1)
    }
}

/// The token stream of the document from position `i` on: each delimiter
/// its own token, each maximal delimiter-free run a word.
pub open spec fn spec_tokens(doc: Seq<char>, delims: Seq<char>, i: int) -> Seq<SpecToken>
    decreases doc.len() - i,
{
    if i < 0 || i >= doc.len() {
        Seq::empty()
    } else {
        // the word end never passes the document's end; the bound here
        // only makes that plain to the termination check
        let e = if spec_word_end(doc, delims, i) > doc.len() {
            doc.len() as int
        } else {
            spec_word_end(doc, delims, i)
        };
        if e <= i {
            seq![SpecToken { text: doc.subrange(i, i + 1), word: false }] + spec_tokens(
                doc,
                delims,
                i + 1,
            )
        } else {
            seq![SpecToken { text: doc.subrange(i, e), word: true }] + spec_tokens(doc, delims, e)
        }
    }
}

/// What a produced token stands for in the specification stream.
pub open spec fn token_view(t: DocToken) -> SpecToken {
    match t {
        DocToken::Word(s) => SpecToken { text: s@, word: true },
        DocToken::Delimiter(s) => SpecToken { text: s@, word: false },
    }
}

/// The specification view of a run of produced tokens.
pub open spec fn window_view(ts: Seq<DocToken>) -> Seq<SpecToken> {
    ts.map_values(|t: DocToken| token_view(t))
}

/// The characters a run of specification tokens covers.
pub open spec fn window_text(w: Seq<SpecToken>) -> Seq<char>
    decreases w.len(),
{
    if w.len() == 0 {
        Seq::empty()
    } else {
        w[0].text + window_text(w.skip(1))
    }
}

proof fn lemma_window_text_view(ts: Seq<DocToken>)
    ensures
        window_text(window_view(ts)) == tokens_text(ts),
    decreases ts.len(),
{
    if ts.len() > 0 {
        assert(window_view(ts)[0] == token_view(ts[0]));
        assert(window_view(ts).skip(1) =~= window_view(ts.skip(1)));
        lemma_window_text_view(ts.skip(1));
    }
}

/// Once the characters from `start` to `i` are known not to be
/// delimiters, the word end from `start` is the word end from `i`.
proof fn lemma_spec_word_end_skip(doc: Seq<char>, delims: Seq<char>, start: int, i: int)
    requires
        0 <= start <= i <= doc.len(),
        forall|k: int| start <= k < i ==> !delims.contains(doc[k]),
    ensures
        spec_word_end(doc, delims, start) == spec_word_end(doc, delims, i),
    decreases i - start,
{
    if start < i {
        lemma_spec_word_end_skip(doc, delims, start + 1, i);
    }
}

impl DocToken {
    /// The token's characters.
    pub fn text(&self) -> (r: &str)
        ensures
            r@ == token_text(*self),
    {
        match self {
            DocToken::Word(s) => s.as_str(),
            DocToken::Delimiter(s) => s.as_str(),
        }
    }
}

/// Whether the character list holds `c`.
fn contains_char(v: &Vec<char>, c: char) -> (r: bool)
    ensures
        r == v@.contains(c),
{
    let n = v.len();
    let mut i: usize = 0;
    while i < n
        invariant
            0 <= i <= n,
            n == v@.len(),
            forall|k: int| 0 <= k < i ==> v@[k] != c,
        decreases n - i,
    {
        if v[i] == c {
            return true;
        }
        i = i + 1;
    }
    assert(!v@.contains(c));
    false
}

/// Cuts a document into `DocToken`s, delimiter characters each their own
/// token and maximal delimiter-free runs the words.
pub struct DocTokenizer {
    pub document: String,
    pub delimiters: Vec<char>,
    pub dex: usize,
}

impl DocTokenizer {
    /// The cursor sits inside the document.
    pub open spec fn wf(&self) -> bool {
        self.dex <= self.document@.len()
    }

    /// A tokenizer over `document` with the default delimiters: period,
    /// space, comma and semicolon.
    pub fn new(document: &str) -> (r: DocTokenizer)
        ensures
            r.wf(),
            r.document@ == document@,
            r.dex == 0,
            r.delimiters@ =~= seq!['.', ' ', ',', ';'],
    {
        let mut delimiters: Vec<char> = Vec::new();
        delimiters.push('.');
        delimiters.push(' ');
        delimiters.push(',');
        delimiters.push(';');
        Self::new_with_delimiters(document, delimiters)
    }

    /// A tokenizer over `document` cutting at the given delimiter
    /// characters.
    pub fn new_with_delimiters(document: &str, delimiters: Vec<char>) -> (r: DocTokenizer)
        ensures
            r.wf(),
            r.document@ == document@,
            r.delimiters@ == delimiters@,
            r.dex == 0,
    {
        DocTokenizer { document: String::from_str(document), delimiters, dex: 0 }
    }

    /// The first position at or after `start` holding a delimiter, or the
    /// document's end.
    fn scan_word_end(doc: &String, delimiters: &Vec<char>, start: usize, len: usize) -> (end: usize)
        requires
            start <= len,
            len == doc@.len(),
        ensures
            start <= end <= len,
            forall|k: int| start <= k < end ==> !delimiters@.contains(#[trigger] doc@[k]),
            end < len ==> delimiters@.contains(doc@[end as int]),
            end == spec_word_end(doc@, delimiters@, start as int),
    {
        let mut i = start;
        while i < len
            invariant
                start <= i <= len,
                len == doc@.len(),
                forall|k: int| start <= k < i ==> !delimiters@.contains(#[trigger] doc@[k]),
            decreases len - i,
        {
            let c = doc.as_str().get_char(i);
            if contains_char(delimiters, c) {
                proof {
                    lemma_spec_word_end_skip(doc@, delimiters@, start as int, i as int);
                }
                return i;
            }
            i = i + 1;
        }
        proof {
            lemma_spec_word_end_skip(doc@, delimiters@, start as int, len as int);
        }
        i
    }

    /// The next token: `None` at the end of the document, else the token
    /// starting at the cursor, which moves past it.
    pub fn next(&mut self) -> (r: Option<DocToken>)
        requires
            old(self).wf(),
        ensures
            final(self).wf(),
            final(self).document == old(self).document,
            final(self).delimiters == old(self).delimiters,
            match r {
                Option::None => final(self).dex == old(self).dex && old(self).dex == old(
                    self,
                ).document@.len(),
                Option::Some(t) => {
                    &&& old(self).dex < final(self).dex <= old(self).document@.len()
                    &&& token_text(t) == old(self).document@.subrange(
                        old(self).dex as int,
                        final(self).dex as int,
                    )
                    &&& match t {
                        DocToken::Delimiter(s) => s@.len() == 1 && old(self).delimiters@.contains(
                            s@[0],
                        ),
                        DocToken::Word(s) => s@.len() > 0 && forall|k: int|
                            0 <= k < s@.len() ==> !old(self).delimiters@.contains(#[trigger] s@[k]),
                    }
                    // the token is the head of the specification stream
                    &&& spec_tokens(old(self).document@, old(self).delimiters@, old(self).dex as int)
                        == seq![token_view(t)] + spec_tokens(
                        old(self).document@,
                        old(self).delimiters@,
                        final(self).dex as int,
                    )
                },
            },
    {
        let startix = self.dex;
        let len = self.document.as_str().unicode_len();
        if startix == len {
            return None;
        }
        let end = Self::scan_word_end(&self.document, &self.delimiters, startix, len);
        if end == startix {
            self.dex = startix + 1;
            let s = self.document.as_str().substring_char(startix, startix + 1);
            proof {
                assert(s@[0] == self.document@[startix as int]);
            }
            let t = DocToken::Delimiter(String::from_str(s));
            proof {
                assert(token_view(t) == SpecToken {
                    text: self.document@.subrange(startix as int, startix + 1),
                    word: false,
                });
            }
            Some(t)
        } else {
            self.dex = end;
            let s = self.document.as_str().substring_char(startix, end);
            proof {
                assert(forall|k: int|
                    0 <= k < s@.len() ==> #[trigger] s@[k] == self.document@[startix + k]);
            }
            let t = DocToken::Word(String::from_str(s));
            proof {
                assert(token_view(t) == SpecToken {
                    text: self.document@.subrange(startix as int, end as int),
                    word: true,
                });
            }
            Some(t)
        }
    }
}

/// One rendered part of a linked document: plain text carried through, or
/// a link made from a matched phrase and the page it names.
pub enum DocPart {
    Plain(String),
    Link(String, String),
}

/// The characters a part carries: its text, a link counting by its name.
pub open spec fn part_text(p: DocPart) -> Seq<char> {
    match p {
        DocPart::Plain(s) => s@,
        DocPart::Link(name, _) => name@,
    }
}

/// The characters a run of parts carries.
pub open spec fn parts_text(ps: Seq<DocPart>) -> Seq<char>
    decreases ps.len(),
{
    if ps.len() == 0 {
        Seq::empty()
    } else {
        parts_text(ps.drop_last()) + part_text(ps.last())
    }
}

/// A part rendered as markdown: plain text as it is, a link as
/// `[name](url)`.
pub open spec fn part_md(p: DocPart) -> Seq<char> {
    match p {
        DocPart::Plain(s) => s@,
        DocPart::Link(name, url) => "["@ + name@ + "]("@ + url@ + ")"@,
    }
}

/// A run of parts rendered as markdown.
pub open spec fn parts_md(ps: Seq<DocPart>) -> Seq<char>
    decreases ps.len(),
{
    if ps.len() == 0 {
        Seq::empty()
    } else {
        parts_md(ps.drop_last()) + part_md(ps.last())
    }
}

/// The page registered under `key`: the value beside the first matching
/// name, searched front to back.
pub open spec fn pages_lookup(pages: Seq<(String, String)>, key: Seq<char>) -> Option<Seq<char>>
    decreases pages.len(),
{
    if pages.len() == 0 {
        Option::None
    } else if pages[0].0@ == key {
        Option::Some(pages[0].1@)
    } else {
        pages_lookup(pages.skip(1), key)
    }
}

proof fn lemma_pages_lookup_skip(pages: Seq<(String, String)>, key: Seq<char>, i: int)
    requires
        0 <= i <= pages.len(),
        forall|k: int| 0 <= k < i ==> (#[trigger] pages[k]).0@ != key,
    ensures
        pages_lookup(pages, key) == pages_lookup(pages.skip(i), key),
    decreases i,
{
    if i == 0 {
        assert(pages.skip(0) =~= pages);
    } else {
        assert(pages.len() > 0 && pages[0].0@ != key);
        assert forall|k: int| 0 <= k < i - 1 implies (#[trigger] pages.skip(1)[k]).0@ != key by {
            assert(pages.skip(1)[k] == pages[k + 1]);
        }
        lemma_pages_lookup_skip(pages.skip(1), key, i - 1);
        assert(pages.skip(1).skip(i - 1) =~= pages.skip(i));
    }
}

/// The registered page under `key`, if any.
fn find_page(pages: &Vec<(String, String)>, key: &str) -> (r: Option<String>)
    ensures
        match r {
            Option::Some(url) => pages_lookup(pages@, key@) == Option::Some(url@),
            Option::None => pages_lookup(pages@, key@) is None,
        },
{
    let n = pages.len();
    let mut i: usize = 0;
    while i < n
        invariant
            0 <= i <= n,
            n == pages@.len(),
            forall|k: int| 0 <= k < i ==> (#[trigger] pages@[k]).0@ != key@,
        decreases n - i,
    {
        if crate::lex::str_eq(pages[i].0.as_str(), key) {
            proof {
                lemma_pages_lookup_skip(pages@, key@, i as int);
                assert(pages@.skip(i as int)[0] == pages@[i as int]);
            }
            return Some(pages[i].1.clone());
        }
        i = i + 1;
    }
    proof {
        lemma_pages_lookup_skip(pages@, key@, n as int);
        assert(pages@.skip(n as int) =~= Seq::<(String, String)>::empty());
    }
    None
}

/// The lowercase form of a phrase, as the page names are registered.
pub uninterp spec fn lower_of(s: Seq<char>) -> Seq<char>;

/// Relies on str::to_lowercase: the result depends on the characters of
/// the argument alone.
#[verifier::external_body]
fn lowercase(s: &str) -> (r: String)
    ensures
        r@ == lower_of(s@),
{
    s.to_lowercase()
}

/// The markdown rendered to HTML.
pub uninterp spec fn html_of(md: Seq<char>) -> Seq<char>;

/// Relies on pulldown_cmark's Parser and html::push_html: the rendered
/// HTML depends on the markdown text alone.
#[verifier::external_body]
fn render_html(md: &str) -> (r: String)
    ensures
        r@ == html_of(md@),
{
    let parser = pulldown_cmark::Parser::new(md);
    let mut html_buf = String::new();
    pulldown_cmark::html::push_html(&mut html_buf, parser);
    html_buf
}

/// A part of the specification linker: plain text or a resolved link.
pub enum SpecPart {
    Plain(Seq<char>),
    Link(Seq<char>, Seq<char>),
}

/// What a produced part stands for in the specification.
pub open spec fn part_view(p: DocPart) -> SpecPart {
    match p {
        DocPart::Plain(s) => SpecPart::Plain(s@),
        DocPart::Link(n, u) => SpecPart::Link(n@, u@),
    }
}

/// The specification view of the produced parts.
pub open spec fn parts_view(ps: Seq<DocPart>) -> Seq<SpecPart> {
    ps.map_values(|p: DocPart| part_view(p))
}

/// The shortest proper suffix of the window, from `i` tokens up, whose
/// lowercase text names a page: its length in tokens and the page.
pub open spec fn spec_find_link(w: Seq<SpecToken>, pages: Seq<(String, String)>, i: int) -> Option<
    (int, Seq<char>),
>
    decreases w.len() - i,
{
    if i < 1 || i >= w.len() {
        Option::None
    } else {
        let phrase = window_text(w.skip(w.len() - i));
        match pages_lookup(pages, lower_of(phrase)) {
            Option::Some(url) => Option::Some((i, url)),
            Option::None => spec_find_link(w, pages, i + 1),
        }
    }
}

/// The state the linker carries across one token: the finished parts, the
/// open plain section, and the window of recent tokens.
pub struct LinkState {
    pub parts: Seq<SpecPart>,
    pub section: Seq<char>,
    pub window: Seq<SpecToken>,
}

/// The state before any token.
pub open spec fn init_link_state() -> LinkState {
    LinkState { parts: Seq::empty(), section: Seq::empty(), window: Seq::empty() }
}

/// One step of the linker: the window is capped at ten tokens, a delimiter
/// other than a space flushes it into the section, and any other token
/// joins it, after which the shortest matching suffix — if any — becomes a
/// link, closing the section before it.
pub open spec fn spec_link_step(st: LinkState, t: SpecToken, pages: Seq<(String, String)>) -> LinkState {
    let st1 = if st.window.len() > 10 {
        LinkState {
            parts: st.parts,
            section: st.section + st.window[0].text,
            window: st.window.skip(1),
        }
    } else {
        st
    };
    if !t.word && t.text != " "@ {
        LinkState {
            parts: st1.parts,
            section: st1.section + window_text(st1.window) + t.text,
            window: Seq::empty(),
        }
    } else {
        let w2 = st1.window.push(t);
        match spec_find_link(w2, pages, 1) {
            Option::Some((i, url)) => {
                let cut = w2.len() - i;
                LinkState {
                    parts: st1.parts.push(
                        SpecPart::Plain(st1.section + window_text(w2.take(cut))),
                    ).push(SpecPart::Link(window_text(w2.skip(cut)), url)),
                    section: Seq::empty(),
                    window: Seq::empty(),
                }
            },
            Option::None => LinkState { parts: st1.parts, section: st1.section, window: w2 },
        }
    }
}

/// The linker's state after the whole token stream.
pub open spec fn spec_link_fold(
    st: LinkState,
    toks: Seq<SpecToken>,
    pages: Seq<(String, String)>,
) -> LinkState
    decreases toks.len(),
{
    if toks.len() == 0 {
        st
    } else {
        spec_link_fold(spec_link_step(st, toks[0], pages), toks.skip(1), pages)
    }
}

/// The delimiters the linker cuts at.
pub open spec fn default_delimiters() -> Seq<char> {
    seq!['.', ' ', ',', ';']
}

/// The parts the linker produces for a document: the fold over its token
/// stream, closed by the open section and whatever the window still holds.
pub open spec fn spec_linked_parts(text: Seq<char>, pages: Seq<(String, String)>) -> Seq<SpecPart> {
    let st = spec_link_fold(init_link_state(), spec_tokens(text, default_delimiters(), 0), pages);
    let closed = st.parts.push(SpecPart::Plain(st.section));
    if st.window.len() > 0 {
        closed.push(SpecPart::Plain(window_text(st.window)))
    } else {
        closed
    }
}

/// A specification part rendered as markdown.
pub open spec fn spec_part_md(p: SpecPart) -> Seq<char> {
    match p {
        SpecPart::Plain(s) => s,
        SpecPart::Link(name, url) => "["@ + name + "]("@ + url + ")"@,
    }
}

/// A run of specification parts rendered as markdown.
pub open spec fn spec_parts_md(ps: Seq<SpecPart>) -> Seq<char>
    decreases ps.len(),
{
    if ps.len() == 0 {
        Seq::empty()
    } else {
        spec_parts_md(ps.drop_last()) + spec_part_md(ps.last())
    }
}

/// The markdown of produced parts is the markdown of their view: the
/// rendering reads nothing but the characters.
proof fn lemma_parts_md_view(ps: Seq<DocPart>)
    ensures
        parts_md(ps) == spec_parts_md(parts_view(ps)),
    decreases ps.len(),
{
    if ps.len() > 0 {
        assert(parts_view(ps).drop_last() =~= parts_view(ps.drop_last()));
        assert(parts_view(ps).last() == part_view(ps.last()));
        assert(part_md(ps.last()) == spec_part_md(part_view(ps.last())));
        lemma_parts_md_view(ps.drop_last());
    }
}

/// The text of a window suffix is the text of the matching token suffix.
proof fn lemma_window_suffix_text(ts: Seq<DocToken>, cut: int)
    requires
        0 <= cut <= ts.len(),
    ensures
        window_text(window_view(ts).skip(cut)) == tokens_text(
            ts.subrange(cut, ts.len() as int),
        ),
{
    assert(window_view(ts).skip(cut) =~= window_view(ts.subrange(cut, ts.len() as int)));
    lemma_window_text_view(ts.subrange(cut, ts.len() as int));
}

/// The text of a window prefix is the text of the matching token prefix.
proof fn lemma_window_prefix_text(ts: Seq<DocToken>, cut: int)
    requires
        0 <= cut <= ts.len(),
    ensures
        window_text(window_view(ts).take(cut)) == tokens_text(ts.subrange(0, cut)),
{
    assert(window_view(ts).take(cut) =~= window_view(ts.subrange(0, cut)));
    lemma_window_text_view(ts.subrange(0, cut));
}

/// Every link part resolves: its name, lowercased, is registered to
/// exactly the page the link points at.
pub open spec fn links_resolved(parts: Seq<DocPart>, pages: Seq<(String, String)>) -> bool {
    forall|k: int|
        0 <= k < parts.len() ==> match #[trigger] parts[k] {
            DocPart::Link(name, url) => pages_lookup(pages, lower_of(name@)) == Option::Some(url@),
            DocPart::Plain(_) => true,
        }
}

/// A document cut into plain stretches and links to known pages.
pub struct LinkedDocument {
    pub parts: Vec<DocPart>,
}

impl View for LinkedDocument {
    type V = Seq<DocPart>;

    open spec fn view(&self) -> Seq<DocPart> {
        self.parts@
    }
}

/// The tokens from `from` to `to` joined into one string.
fn join_tokens(link: &Vec<DocToken>, from: usize, to: usize) -> (r: String)
    requires
        from <= to <= link@.len(),
    ensures
        r@ == tokens_text(link@.subrange(from as int, to as int)),
{
    let mut out = String::new();
    let mut k = from;
    proof {
        assert(link@.subrange(from as int, from as int) =~= Seq::<DocToken>::empty());
    }
    while k < to
        invariant
            from <= k <= to <= link@.len(),
            out@ == tokens_text(link@.subrange(from as int, k as int)),
        decreases to - k,
    {
        out.append(link[k].text());
        proof {
            assert(link@.subrange(from as int, k + 1) =~= link@.subrange(from as int, k as int).push(
                link@[k as int],
            ));
            lemma_tokens_text_push(link@.subrange(from as int, k as int), link@[k as int]);
        }
        k = k + 1;
    }
    out
}

/// The shortest suffix of the window whose lowercase form names a page:
/// its length in tokens, the phrase, and the page. Only proper suffixes
/// are tried, so a window of one token yields nothing.
fn find_link(link: &Vec<DocToken>, pages: &Vec<(String, String)>) -> (r: Option<
    (usize, String, String),
>)
    ensures
        match r {
            Option::Some((i, phrase, url)) => {
                &&& 1 <= i < link@.len()
                &&& phrase@ == tokens_text(
                    link@.subrange(link@.len() - i as int, link@.len() as int),
                )
                &&& pages_lookup(pages@, lower_of(phrase@)) == Option::Some(url@)
                &&& spec_find_link(window_view(link@), pages@, 1) == Option::Some((i as int, url@))
            },
            Option::None => spec_find_link(window_view(link@), pages@, 1) is None,
        },
{
    let n = link.len();
    let ghost wv = window_view(link@);
    let mut i: usize = 1;
    while i < n
        invariant
            1 <= i,
            n == link@.len(),
            wv == window_view(link@),
            spec_find_link(wv, pages@, 1) == spec_find_link(wv, pages@, i as int),
        decreases n - i,
    {
        let phrase = join_tokens(link, n - i, n);
        proof {
            lemma_window_suffix_text(link@, n - i as int);
            assert(phrase@ == window_text(wv.skip(wv.len() - i as int)));
        }
        let phrase_lower = lowercase(phrase.as_str());
        match find_page(pages, phrase_lower.as_str()) {
            Some(url) => {
                proof {
                    assert(spec_find_link(wv, pages@, i as int) == Option::Some((i as int, url@)));
                }
                return Some((i, phrase, url));
            },
            None => {
                proof {
                    assert(spec_find_link(wv, pages@, i as int) == spec_find_link(
                        wv,
                        pages@,
                        i + 1,
                    ));
                }
            },
        }
        i = i + 1;
    }
    proof {
        assert(spec_find_link(wv, pages@, n as int) is None);
    }
    None
}

impl LinkedDocument {
    /// Cuts `text` into parts, linking each phrase whose lowercase form
    /// names a page. No character is lost or reordered: the parts carry
    /// the document exactly, every link resolves in the page table, and
    /// the whole decomposition is the one [`spec_linked_parts`] fixes, so
    /// equal inputs give equal documents.
    #[verifier::rlimit(100)]
    pub fn new(text: &str, page_names: &Vec<(String, String)>) -> (doc: LinkedDocument)
        ensures
            parts_text(doc@) == text@,
            links_resolved(doc@, page_names@),
            parts_view(doc@) == spec_linked_parts(text@, page_names@),
    {
        let mut parts: Vec<DocPart> = Vec::new();
        let mut section = String::new();
        let mut link: Vec<DocToken> = Vec::new();
        let mut tok = DocTokenizer::new(text);
        let ghost total = spec_link_fold(
            init_link_state(),
            spec_tokens(text@, default_delimiters(), 0),
            page_names@,
        );
        proof {
            assert(text@.take(0) =~= Seq::<char>::empty());
            assert(parts_text(parts@) + section@ + tokens_text(link@) =~= text@.take(0));
            assert(tok.delimiters@ == default_delimiters());
            assert(parts_view(parts@) =~= init_link_state().parts);
            assert(window_view(link@) =~= init_link_state().window);
        }
        loop
            invariant
                tok.wf(),
                tok.document@ == text@,
                tok.delimiters@ == default_delimiters(),
                parts_text(parts@) + section@ + tokens_text(link@) == text@.take(tok.dex as int),
                links_resolved(parts@, page_names@),
                spec_link_fold(
                    LinkState {
                        parts: parts_view(parts@),
                        section: section@,
                        window: window_view(link@),
                    },
                    spec_tokens(text@, default_delimiters(), tok.dex as int),
                    page_names@,
                ) == total,
            ensures
                parts_text(parts@) + section@ + tokens_text(link@) == text@,
                links_resolved(parts@, page_names@),
                (LinkState {
                    parts: parts_view(parts@),
                    section: section@,
                    window: window_view(link@),
                }) == total,
            decreases text@.len() - tok.dex,
        {
            let ghost pre_dex = tok.dex as int;
            let ghost st0 = LinkState {
                parts: parts_view(parts@),
                section: section@,
                window: window_view(link@),
            };
            let next_tok = tok.next();
            match next_tok {
                None => {
                    proof {
                        assert(text@.take(tok.dex as int) =~= text@);
                        assert(spec_tokens(text@, default_delimiters(), tok.dex as int)
                            =~= Seq::<SpecToken>::empty());
                    }
                    break ;
                },
                Some(token) => {
                    let ghost tv = token_view(token);
                    proof {
                        assert(text@.take(tok.dex as int) =~= text@.take(pre_dex) + token_text(
                            token,
                        ));
                    }
                    // the running sum now owes exactly this token's text:
                    // parts + section + link + token == take(dex)
                    if link.len() > 10 {
                        let ghost pre_link = link@;
                        let t0 = link.remove(0);
                        section.append(t0.text());
                        proof {
                            assert(link@ =~= pre_link.skip(1));
                            assert(tokens_text(pre_link) == token_text(pre_link[0]) + tokens_text(
                                pre_link.skip(1),
                            ));
                            assert(parts_text(parts@) + section@ + tokens_text(link@)
                                =~= text@.take(pre_dex));
                            assert(window_view(link@) =~= st0.window.skip(1));
                            assert(st0.window[0].text == token_text(pre_link[0]));
                        }
                    }
                    // the window after the cap: the first component of the
                    // specification step
                    let ghost st1 = LinkState {
                        parts: parts_view(parts@),
                        section: section@,
                        window: window_view(link@),
                    };
                    let mut flushed = false;
                    match &token {
                        DocToken::Delimiter(d) => {
                            if !crate::lex::str_eq(d.as_str(), " ") {
                                let ghost pre_link = link@;
                                let ghost pre_section = section@;
                                let joined = join_tokens(&link, 0, link.len());
                                section.append(joined.as_str());
                                section.append(d.as_str());
                                link = Vec::new();
                                flushed = true;
                                proof {
                                    assert(pre_link.subrange(0, pre_link.len() as int)
                                        =~= pre_link);
                                    assert(section@ == pre_section + tokens_text(pre_link)
                                        + token_text(token));
                                    assert(parts_text(parts@) + section@ + tokens_text(link@)
                                        =~= text@.take(tok.dex as int));
                                    lemma_window_text_view(pre_link);
                                    assert(window_view(link@) =~= Seq::<SpecToken>::empty());
                                    assert(!tv.word && tv.text != " "@);
                                }
                            }
                        },
                        DocToken::Word(_) => {},
                    }
                    if !flushed {
                        proof {
                            assert(tv.word || tv.text == " "@);
                        }
                        let ghost pre_link = link@;
                        link.push(token);
                        proof {
                            lemma_tokens_text_push(pre_link, link@[link@.len() - 1]);
                            assert(parts_text(parts@) + section@ + tokens_text(link@)
                                =~= text@.take(tok.dex as int));
                            assert(window_view(link@) =~= st1.window.push(tv));
                        }
                        match find_link(&link, page_names) {
                            Some((i, phrase, url)) => {
                                let ghost pre_parts = parts@;
                                let ghost pre_section = section@;
                                let ghost whole = link@;
                                let ghost cut = link@.len() - i as int;
                                let head = join_tokens(&link, 0, link.len() - i);
                                proof {
                                    lemma_window_prefix_text(whole, cut);
                                    lemma_window_suffix_text(whole, cut);
                                }
                                section.append(head.as_str());
                                parts.push(DocPart::Plain(section));
                                section = String::new();
                                parts.push(DocPart::Link(phrase, url));
                                link = Vec::new();
                                proof {
                                    assert(whole =~= whole.subrange(0, cut) + whole.subrange(
                                        cut,
                                        whole.len() as int,
                                    ));
                                    lemma_tokens_text_concat(
                                        whole.subrange(0, cut),
                                        whole.subrange(cut, whole.len() as int),
                                    );
                                    let plain = pre_parts.push(parts@[parts@.len() - 2]);
                                    assert(parts@ =~= plain.push(parts@[parts@.len() - 1]));
                                    assert(plain.drop_last() =~= pre_parts);
                                    assert(parts@.drop_last() =~= plain);
                                    assert(parts_text(parts@) == parts_text(pre_parts)
                                        + pre_section + tokens_text(whole.subrange(0, cut))
                                        + tokens_text(whole.subrange(cut, whole.len() as int)))
                                        by {
                                        assert(parts_text(plain) == parts_text(pre_parts)
                                            + part_text(plain.last()));
                                        assert(parts_text(parts@) == parts_text(plain) + part_text(
                                            parts@.last(),
                                        ));
                                    }
                                    assert(parts_text(parts@) + section@ + tokens_text(link@)
                                        =~= text@.take(tok.dex as int));
                                    assert forall|k: int| 0 <= k < parts@.len() implies match #[trigger] parts@[k] {
                                        DocPart::Link(name, url2) => pages_lookup(
                                            page_names@,
                                            lower_of(name@),
                                        ) == Option::Some(url2@),
                                        DocPart::Plain(_) => true,
                                    } by {
                                        if k < pre_parts.len() {
                                            assert(parts@[k] == pre_parts[k]);
                                        }
                                    }
                                    // the two new parts are the step's
                                    assert(parts_view(parts@) =~= st1.parts.push(
                                        SpecPart::Plain(
                                            st1.section + window_text(window_view(whole).take(cut)),
                                        ),
                                    ).push(
                                        SpecPart::Link(
                                            window_text(window_view(whole).skip(cut)),
                                            url@,
                                        ),
                                    ));
                                    assert(window_view(link@) =~= Seq::<SpecToken>::empty());
                                }
                            },
                            None => {},
                        }
                    }
                    proof {
                        // the new state is one specification step on from
                        // the old, and folding the rest is unchanged
                        let stepped = spec_link_step(st0, tv, page_names@);
                        assert(LinkState {
                            parts: parts_view(parts@),
                            section: section@,
                            window: window_view(link@),
                        } == stepped);
                        let toks_old = spec_tokens(text@, default_delimiters(), pre_dex);
                        assert(toks_old == seq![tv] + spec_tokens(
                            text@,
                            default_delimiters(),
                            tok.dex as int,
                        ));
                        assert(toks_old[0] == tv);
                        assert(toks_old.skip(1) =~= spec_tokens(
                            text@,
                            default_delimiters(),
                            tok.dex as int,
                        ));
                        assert(spec_link_fold(st0, toks_old, page_names@) == spec_link_fold(
                            stepped,
                            spec_tokens(text@, default_delimiters(), tok.dex as int),
                            page_names@,
                        ));
                    }
                },
            }
        }
        let ghost pre_parts = parts@;
        let ghost pre_section = section@;
        parts.push(DocPart::Plain(section));
        proof {
            assert(parts@.drop_last() =~= pre_parts);
            assert(parts_text(parts@) == parts_text(pre_parts) + pre_section);
            assert(parts_view(parts@) =~= total.parts.push(SpecPart::Plain(total.section)));
        }
        if link.len() > 0 {
            let tail = join_tokens(&link, 0, link.len());
            let ghost mid_parts = parts@;
            let ghost tail_view = tail@;
            proof {
                assert(link@.subrange(0, link@.len() as int) =~= link@);
                lemma_window_text_view(link@);
            }
            parts.push(DocPart::Plain(tail));
            proof {
                assert(parts@.drop_last() =~= mid_parts);
                assert(parts_text(parts@) == parts_text(mid_parts) + tail_view);
                assert(parts_view(parts@) =~= parts_view(mid_parts).push(
                    SpecPart::Plain(window_text(total.window)),
                ));
            }
        } else {
            proof {
                assert(tokens_text(link@) =~= Seq::<char>::empty());
                assert(total.window.len() == 0);
            }
        }
        let doc = LinkedDocument { parts };
        proof {
            assert(parts_text(doc@) =~= text@);
            assert(parts_view(doc@) == spec_linked_parts(text@, page_names@));
        }
        doc
    }

    /// The document rendered as markdown: plain parts as they are, links
    /// as `[name](url)`. The rendering reads nothing but the characters,
    /// so two documents with one view render alike.
    pub fn get_md(&self) -> (r: String)
        ensures
            r@ == parts_md(self@),
            r@ == spec_parts_md(parts_view(self@)),
    {
        proof {
            lemma_parts_md_view(self.parts@);
        }
        let n = self.parts.len();
        let mut out = String::new();
        let mut i: usize = 0;
        proof {
            assert(self.parts@.take(0) =~= Seq::<DocPart>::empty());
        }
        while i < n
            invariant
                0 <= i <= n,
                n == self.parts@.len(),
                out@ == parts_md(self.parts@.take(i as int)),
            decreases n - i,
        {
            match &self.parts[i] {
                DocPart::Plain(s) => {
                    out.append(s.as_str());
                },
                DocPart::Link(name, url) => {
                    out.append("[");
                    out.append(name.as_str());
                    out.append("](");
                    out.append(url.as_str());
                    out.append(")");
                },
            }
            proof {
                assert(self.parts@.take(i + 1).drop_last() =~= self.parts@.take(i as int));
                assert(self.parts@.take(i + 1).last() == self.parts@[i as int]);
                assert(out@ =~= parts_md(self.parts@.take(i + 1)));
            }
            i = i + 1;
        }
        proof {
            assert(self.parts@.take(n as int) =~= self.parts@);
        }
        out
    }

    /// The document rendered as markdown and then as HTML.
    pub fn get_html(&self) -> (r: String)
        ensures
            r@ == html_of(parts_md(self@)),
            r@ == html_of(spec_parts_md(parts_view(self@))),
    {
        proof {
            lemma_parts_md_view(self.parts@);
        }
        let md = self.get_md();
        render_html(md.as_str())
    }
}

} // verus!
