//! Element names, their lookup table, and the elements carried by events.
use vstd::prelude::*;

verus! {

/// A recognized element name.
#[derive(Clone, Copy, Debug, PartialEq, Eq, Structural)]
pub enum HtmlElementName {
    Doctype,
    Html,
    Head,
    Body,
    Title,
    Meta,
    Link,
    Base,
    Script,
    Style,
    Noscript,
    Div,
    Span,
    P,
    A,
    Img,
    Br,
    Hr,
    H1,
    H2,
    H3,
    H4,
    H5,
    H6,
    Ul,
    Ol,
    Li,
    Table,
    Tr,
    Td,
    Th,
    Form,
    Input,
    Button,
    Label,
    Header,
    Footer,
    Nav,
    Main,
    Section,
    Article,
    Strong,
    Em,
    B,
    I,
    Iframe,
}

/// The lower-case text of a name, as it is written in a tag.
pub open spec fn name_text(n: HtmlElementName) -> Seq<char> {
    match n {
        HtmlElementName::Doctype => seq!['!', 'd', 'o', 'c', 't', 'y', 'p', 'e'],
        HtmlElementName::Html => seq!['h', 't', 'm', 'l'],
        HtmlElementName::Head => seq!['h', 'e', 'a', 'd'],
        HtmlElementName::Body => seq!['b', 'o', 'd', 'y'],
        HtmlElementName::Title => seq!['t', 'i', 't', 'l', 'e'],
        HtmlElementName::Meta => seq!['m', 'e', 't', 'a'],
        HtmlElementName::Link => seq!['l', 'i', 'n', 'k'],
        HtmlElementName::Base => seq!['b', 'a', 's', 'e'],
        HtmlElementName::Script => seq!['s', 'c', 'r', 'i', 'p', 't'],
        HtmlElementName::Style => seq!['s', 't', 'y', 'l', 'e'],
        HtmlElementName::Noscript => seq!['n', 'o', 's', 'c', 'r', 'i', 'p', 't'],
        HtmlElementName::Div => seq!['d', 'i', 'v'],
        HtmlElementName::Span => seq!['s', 'p', 'a', 'n'],
        HtmlElementName::P => seq!['p'],
        HtmlElementName::A => seq!['a'],
        HtmlElementName::Img => seq!['i', 'm', 'g'],
        HtmlElementName::Br => seq!['b', 'r'],
        HtmlElementName::Hr => seq!['h', 'r'],
        HtmlElementName::H1 => seq!['h', '1'],
        HtmlElementName::H2 => seq!['h', '2'],
        HtmlElementName::H3 => seq!['h', '3'],
        HtmlElementName::H4 => seq!['h', '4'],
        HtmlElementName::H5 => seq!['h', '5'],
        HtmlElementName::H6 => seq!['h', '6'],
        HtmlElementName::Ul => seq!['u', 'l'],
        HtmlElementName::Ol => seq!['o', 'l'],
        HtmlElementName::Li => seq!['l', 'i'],
        HtmlElementName::Table => seq!['t', 'a', 'b', 'l', 'e'],
        HtmlElementName::Tr => seq!['t', 'r'],
        HtmlElementName::Td => seq!['t', 'd'],
        HtmlElementName::Th => seq!['t', 'h'],
        HtmlElementName::Form => seq!['f', 'o', 'r', 'm'],
        HtmlElementName::Input => seq!['i', 'n', 'p', 'u', 't'],
        HtmlElementName::Button => seq!['b', 'u', 't', 't', 'o', 'n'],
        HtmlElementName::Label => seq!['l', 'a', 'b', 'e', 'l'],
        HtmlElementName::Header => seq!['h', 'e', 'a', 'd', 'e', 'r'],
        HtmlElementName::Footer => seq!['f', 'o', 'o', 't', 'e', 'r'],
        HtmlElementName::Nav => seq!['n', 'a', 'v'],
        HtmlElementName::Main => seq!['m', 'a', 'i', 'n'],
        HtmlElementName::Section => seq!['s', 'e', 'c', 't', 'i', 'o', 'n'],
        HtmlElementName::Article => seq!['a', 'r', 't', 'i', 'c', 'l', 'e'],
        HtmlElementName::Strong => seq!['s', 't', 'r', 'o', 'n', 'g'],
        HtmlElementName::Em => seq!['e', 'm'],
        HtmlElementName::B => seq!['b'],
        HtmlElementName::I => seq!['i'],
        HtmlElementName::Iframe => seq!['i', 'f', 'r', 'a', 'm', 'e'],
    }
}

/// ASCII upper-case letters folded to lower case; every other character kept.
pub open spec fn fold_char(c: char) -> char {
    if 'A' <= c && c <= 'Z' {
        ((c as u32) + 32) as char
    } else {
        c
    }
}

/// `s` with ASCII upper-case letters folded to lower case.
pub open spec fn fold_text(s: Seq<char>) -> Seq<char> {
    s.map_values(|c: char| fold_char(c))
}

/// Raw-text elements: their body is not scanned for tags.
pub open spec fn is_raw_text(n: HtmlElementName) -> bool {
    n == HtmlElementName::Script || n == HtmlElementName::Style
}

/// The name whose text is `f`, if any.
pub open spec fn name_for(f: Seq<char>) -> Option<HtmlElementName> {
    if f == name_text(HtmlElementName::Doctype) {
        Some(HtmlElementName::Doctype)
    } else if f == name_text(HtmlElementName::Html) {
        Some(HtmlElementName::Html)
    } else if f == name_text(HtmlElementName::Head) {
        Some(HtmlElementName::Head)
    } else if f == name_text(HtmlElementName::Body) {
        Some(HtmlElementName::Body)
    } else if f == name_text(HtmlElementName::Title) {
        Some(HtmlElementName::Title)
    } else if f == name_text(HtmlElementName::Meta) {
        Some(HtmlElementName::Meta)
    } else if f == name_text(HtmlElementName::Link) {
        Some(HtmlElementName::Link)
    } else if f == name_text(HtmlElementName::Base) {
        Some(HtmlElementName::Base)
    } else if f == name_text(HtmlElementName::Script) {
        Some(HtmlElementName::Script)
    } else if f == name_text(HtmlElementName::Style) {
        Some(HtmlElementName::Style)
    } else if f == name_text(HtmlElementName::Noscript) {
        Some(HtmlElementName::Noscript)
    } else if f == name_text(HtmlElementName::Div) {
        Some(HtmlElementName::Div)
    } else if f == name_text(HtmlElementName::Span) {
        Some(HtmlElementName::Span)
    } else if f == name_text(HtmlElementName::P) {
        Some(HtmlElementName::P)
    } else if f == name_text(HtmlElementName::A) {
        Some(HtmlElementName::A)
    } else if f == name_text(HtmlElementName::Img) {
        Some(HtmlElementName::Img)
    } else if f == name_text(HtmlElementName::Br) {
        Some(HtmlElementName::Br)
    } else if f == name_text(HtmlElementName::Hr) {
        Some(HtmlElementName::Hr)
    } else if f == name_text(HtmlElementName::H1) {
        Some(HtmlElementName::H1)
    } else if f == name_text(HtmlElementName::H2) {
        Some(HtmlElementName::H2)
    } else if f == name_text(HtmlElementName::H3) {
        Some(HtmlElementName::H3)
    } else if f == name_text(HtmlElementName::H4) {
        Some(HtmlElementName::H4)
    } else if f == name_text(HtmlElementName::H5) {
        Some(HtmlElementName::H5)
    } else if f == name_text(HtmlElementName::H6) {
        Some(HtmlElementName::H6)
    } else if f == name_text(HtmlElementName::Ul) {
        Some(HtmlElementName::Ul)
    } else if f == name_text(HtmlElementName::Ol) {
        Some(HtmlElementName::Ol)
    } else if f == name_text(HtmlElementName::Li) {
        Some(HtmlElementName::Li)
    } else if f == name_text(HtmlElementName::Table) {
        Some(HtmlElementName::Table)
    } else if f == name_text(HtmlElementName::Tr) {
        Some(HtmlElementName::Tr)
    } else if f == name_text(HtmlElementName::Td) {
        Some(HtmlElementName::Td)
    } else if f == name_text(HtmlElementName::Th) {
        Some(HtmlElementName::Th)
    } else if f == name_text(HtmlElementName::Form) {
        Some(HtmlElementName::Form)
    } else if f == name_text(HtmlElementName::Input) {
        Some(HtmlElementName::Input)
    } else if f == name_text(HtmlElementName::Button) {
        Some(HtmlElementName::Button)
    } else if f == name_text(HtmlElementName::Label) {
        Some(HtmlElementName::Label)
    } else if f == name_text(HtmlElementName::Header) {
        Some(HtmlElementName::Header)
    } else if f == name_text(HtmlElementName::Footer) {
        Some(HtmlElementName::Footer)
    } else if f == name_text(HtmlElementName::Nav) {
        Some(HtmlElementName::Nav)
    } else if f == name_text(HtmlElementName::Main) {
        Some(HtmlElementName::Main)
    } else if f == name_text(HtmlElementName::Section) {
        Some(HtmlElementName::Section)
    } else if f == name_text(HtmlElementName::Article) {
        Some(HtmlElementName::Article)
    } else if f == name_text(HtmlElementName::Strong) {
        Some(HtmlElementName::Strong)
    } else if f == name_text(HtmlElementName::Em) {
        Some(HtmlElementName::Em)
    } else if f == name_text(HtmlElementName::B) {
        Some(HtmlElementName::B)
    } else if f == name_text(HtmlElementName::I) {
        Some(HtmlElementName::I)
    } else if f == name_text(HtmlElementName::Iframe) {
        Some(HtmlElementName::Iframe)
    } else {
        None
    }
}

impl HtmlElementName {
    /// The lower-case text of the name.
    pub fn chars(&self) -> (r: Vec<char>)
        ensures
            r@ == name_text(*self),
    {
        match self {
            HtmlElementName::Doctype => vec!['!', 'd', 'o', 'c', 't', 'y', 'p', 'e'],
            HtmlElementName::Html => vec!['h', 't', 'm', 'l'],
            HtmlElementName::Head => vec!['h', 'e', 'a', 'd'],
            HtmlElementName::Body => vec!['b', 'o', 'd', 'y'],
            HtmlElementName::Title => vec!['t', 'i', 't', 'l', 'e'],
            HtmlElementName::Meta => vec!['m', 'e', 't', 'a'],
            HtmlElementName::Link => vec!['l', 'i', 'n', 'k'],
            HtmlElementName::Base => vec!['b', 'a', 's', 'e'],
            HtmlElementName::Script => vec!['s', 'c', 'r', 'i', 'p', 't'],
            HtmlElementName::Style => vec!['s', 't', 'y', 'l', 'e'],
            HtmlElementName::Noscript => vec!['n', 'o', 's', 'c', 'r', 'i', 'p', 't'],
            HtmlElementName::Div => vec!['d', 'i', 'v'],
            HtmlElementName::Span => vec!['s', 'p', 'a', 'n'],
            HtmlElementName::P => vec!['p'],
            HtmlElementName::A => vec!['a'],
            HtmlElementName::Img => vec!['i', 'm', 'g'],
            HtmlElementName::Br => vec!['b', 'r'],
            HtmlElementName::Hr => vec!['h', 'r'],
            HtmlElementName::H1 => vec!['h', '1'],
            HtmlElementName::H2 => vec!['h', '2'],
            HtmlElementName::H3 => vec!['h', '3'],
            HtmlElementName::H4 => vec!['h', '4'],
            HtmlElementName::H5 => vec!['h', '5'],
            HtmlElementName::H6 => vec!['h', '6'],
            HtmlElementName::Ul => vec!['u', 'l'],
            HtmlElementName::Ol => vec!['o', 'l'],
            HtmlElementName::Li => vec!['l', 'i'],
            HtmlElementName::Table => vec!['t', 'a', 'b', 'l', 'e'],
            HtmlElementName::Tr => vec!['t', 'r'],
            HtmlElementName::Td => vec!['t', 'd'],
            HtmlElementName::Th => vec!['t', 'h'],
            HtmlElementName::Form => vec!['f', 'o', 'r', 'm'],
            HtmlElementName::Input => vec!['i', 'n', 'p', 'u', 't'],
            HtmlElementName::Button => vec!['b', 'u', 't', 't', 'o', 'n'],
            HtmlElementName::Label => vec!['l', 'a', 'b', 'e', 'l'],
            HtmlElementName::Header => vec!['h', 'e', 'a', 'd', 'e', 'r'],
            HtmlElementName::Footer => vec!['f', 'o', 'o', 't', 'e', 'r'],
            HtmlElementName::Nav => vec!['n', 'a', 'v'],
            HtmlElementName::Main => vec!['m', 'a', 'i', 'n'],
            HtmlElementName::Section => vec!['s', 'e', 'c', 't', 'i', 'o', 'n'],
            HtmlElementName::Article => vec!['a', 'r', 't', 'i', 'c', 'l', 'e'],
            HtmlElementName::Strong => vec!['s', 't', 'r', 'o', 'n', 'g'],
            HtmlElementName::Em => vec!['e', 'm'],
            HtmlElementName::B => vec!['b'],
            HtmlElementName::I => vec!['i'],
            HtmlElementName::Iframe => vec!['i', 'f', 'r', 'a', 'm', 'e'],
        }
    }

    /// The lower-case text of the name.
    pub fn to_str(&self) -> (r: &'static str)
        ensures
            r@ == name_text(*self),
    {
        match self {
            HtmlElementName::Doctype => {
                proof {
                    reveal_strlit("!doctype");
                }
                "!doctype"
            },
            HtmlElementName::Html => {
                proof {
                    reveal_strlit("html");
                }
                "html"
            },
            HtmlElementName::Head => {
                proof {
                    reveal_strlit("head");
                }
                "head"
            },
            HtmlElementName::Body => {
                proof {
                    reveal_strlit("body");
                }
                "body"
            },
            HtmlElementName::Title => {
                proof {
                    reveal_strlit("title");
                }
                "title"
            },
            HtmlElementName::Meta => {
                proof {
                    reveal_strlit("meta");
                }
                "meta"
            },
            HtmlElementName::Link => {
                proof {
                    reveal_strlit("link");
                }
                "link"
            },
            HtmlElementName::Base => {
                proof {
                    reveal_strlit("base");
                }
                "base"
            },
            HtmlElementName::Script => {
                proof {
                    reveal_strlit("script");
                }
                "script"
            },
            HtmlElementName::Style => {
                proof {
                    reveal_strlit("style");
                }
                "style"
            },
            HtmlElementName::Noscript => {
                proof {
                    reveal_strlit("noscript");
                }
                "noscript"
            },
            HtmlElementName::Div => {
                proof {
                    reveal_strlit("div");
                }
                "div"
            },
            HtmlElementName::Span => {
                proof {
                    reveal_strlit("span");
                }
                "span"
            },
            HtmlElementName::P => {
                proof {
                    reveal_strlit("p");
                }
                "p"
            },
            HtmlElementName::A => {
                proof {
                    reveal_strlit("a");
                }
                "a"
            },
            HtmlElementName::Img => {
                proof {
                    reveal_strlit("img");
                }
                "img"
            },
            HtmlElementName::Br => {
                proof {
                    reveal_strlit("br");
                }
                "br"
            },
            HtmlElementName::Hr => {
                proof {
                    reveal_strlit("hr");
                }
                "hr"
            },
            HtmlElementName::H1 => {
                proof {
                    reveal_strlit("h1");
                }
                "h1"
            },
            HtmlElementName::H2 => {
                proof {
                    reveal_strlit("h2");
                }
                "h2"
            },
            HtmlElementName::H3 => {
                proof {
                    reveal_strlit("h3");
                }
                "h3"
            },
            HtmlElementName::H4 => {
                proof {
                    reveal_strlit("h4");
                }
                "h4"
            },
            HtmlElementName::H5 => {
                proof {
                    reveal_strlit("h5");
                }
                "h5"
            },
            HtmlElementName::H6 => {
                proof {
                    reveal_strlit("h6");
                }
                "h6"
            },
            HtmlElementName::Ul => {
                proof {
                    reveal_strlit("ul");
                }
                "ul"
            },
            HtmlElementName::Ol => {
                proof {
                    reveal_strlit("ol");
                }
                "ol"
            },
            HtmlElementName::Li => {
                proof {
                    reveal_strlit("li");
                }
                "li"
            },
            HtmlElementName::Table => {
                proof {
                    reveal_strlit("table");
                }
                "table"
            },
            HtmlElementName::Tr => {
                proof {
                    reveal_strlit("tr");
                }
                "tr"
            },
            HtmlElementName::Td => {
                proof {
                    reveal_strlit("td");
                }
                "td"
            },
            HtmlElementName::Th => {
                proof {
                    reveal_strlit("th");
                }
                "th"
            },
            HtmlElementName::Form => {
                proof {
                    reveal_strlit("form");
                }
                "form"
            },
            HtmlElementName::Input => {
                proof {
                    reveal_strlit("input");
                }
                "input"
            },
            HtmlElementName::Button => {
                proof {
                    reveal_strlit("button");
                }
                "button"
            },
            HtmlElementName::Label => {
                proof {
                    reveal_strlit("label");
                }
                "label"
            },
            HtmlElementName::Header => {
                proof {
                    reveal_strlit("header");
                }
                "header"
            },
            HtmlElementName::Footer => {
                proof {
                    reveal_strlit("footer");
                }
                "footer"
            },
            HtmlElementName::Nav => {
                proof {
                    reveal_strlit("nav");
                }
                "nav"
            },
            HtmlElementName::Main => {
                proof {
                    reveal_strlit("main");
                }
                "main"
            },
            HtmlElementName::Section => {
                proof {
                    reveal_strlit("section");
                }
                "section"
            },
            HtmlElementName::Article => {
                proof {
                    reveal_strlit("article");
                }
                "article"
            },
            HtmlElementName::Strong => {
                proof {
                    reveal_strlit("strong");
                }
                "strong"
            },
            HtmlElementName::Em => {
                proof {
                    reveal_strlit("em");
                }
                "em"
            },
            HtmlElementName::B => {
                proof {
                    reveal_strlit("b");
                }
                "b"
            },
            HtmlElementName::I => {
                proof {
                    reveal_strlit("i");
                }
                "i"
            },
            HtmlElementName::Iframe => {
                proof {
                    reveal_strlit("iframe");
                }
                "iframe"
            },
        }
    }

    /// Looks a name up by its text, ignoring ASCII case.
    pub fn lookup(s: &Vec<char>) -> (r: Option<HtmlElementName>)
        ensures
            r == name_for(fold_text(s@)),
    {
        let f = fold_chars(s);
        if matches_name(&f, HtmlElementName::Doctype) {
            Some(HtmlElementName::Doctype)
        } else if matches_name(&f, HtmlElementName::Html) {
            Some(HtmlElementName::Html)
        } else if matches_name(&f, HtmlElementName::Head) {
            Some(HtmlElementName::Head)
        } else if matches_name(&f, HtmlElementName::Body) {
            Some(HtmlElementName::Body)
        } else if matches_name(&f, HtmlElementName::Title) {
            Some(HtmlElementName::Title)
        } else if matches_name(&f, HtmlElementName::Meta) {
            Some(HtmlElementName::Meta)
        } else if matches_name(&f, HtmlElementName::Link) {
            Some(HtmlElementName::Link)
        } else if matches_name(&f, HtmlElementName::Base) {
            Some(HtmlElementName::Base)
        } else if matches_name(&f, HtmlElementName::Script) {
            Some(HtmlElementName::Script)
        } else if matches_name(&f, HtmlElementName::Style) {
            Some(HtmlElementName::Style)
        } else if matches_name(&f, HtmlElementName::Noscript) {
            Some(HtmlElementName::Noscript)
        } else if matches_name(&f, HtmlElementName::Div) {
            Some(HtmlElementName::Div)
        } else if matches_name(&f, HtmlElementName::Span) {
            Some(HtmlElementName::Span)
        } else if matches_name(&f, HtmlElementName::P) {
            Some(HtmlElementName::P)
        } else if matches_name(&f, HtmlElementName::A) {
            Some(HtmlElementName::A)
        } else if matches_name(&f, HtmlElementName::Img) {
            Some(HtmlElementName::Img)
        } else if matches_name(&f, HtmlElementName::Br) {
            Some(HtmlElementName::Br)
        } else if matches_name(&f, HtmlElementName::Hr) {
            Some(HtmlElementName::Hr)
        } else if matches_name(&f, HtmlElementName::H1) {
            Some(HtmlElementName::H1)
        } else if matches_name(&f, HtmlElementName::H2) {
            Some(HtmlElementName::H2)
        } else if matches_name(&f, HtmlElementName::H3) {
            Some(HtmlElementName::H3)
        } else if matches_name(&f, HtmlElementName::H4) {
            Some(HtmlElementName::H4)
        } else if matches_name(&f, HtmlElementName::H5) {
            Some(HtmlElementName::H5)
        } else if matches_name(&f, HtmlElementName::H6) {
            Some(HtmlElementName::H6)
        } else if matches_name(&f, HtmlElementName::Ul) {
            Some(HtmlElementName::Ul)
        } else if matches_name(&f, HtmlElementName::Ol) {
            Some(HtmlElementName::Ol)
        } else if matches_name(&f, HtmlElementName::Li) {
            Some(HtmlElementName::Li)
        } else if matches_name(&f, HtmlElementName::Table) {
            Some(HtmlElementName::Table)
        } else if matches_name(&f, HtmlElementName::Tr) {
            Some(HtmlElementName::Tr)
        } else if matches_name(&f, HtmlElementName::Td) {
            Some(HtmlElementName::Td)
        } else if matches_name(&f, HtmlElementName::Th) {
            Some(HtmlElementName::Th)
        } else if matches_name(&f, HtmlElementName::Form) {
            Some(HtmlElementName::Form)
        } else if matches_name(&f, HtmlElementName::Input) {
            Some(HtmlElementName::Input)
        } else if matches_name(&f, HtmlElementName::Button) {
            Some(HtmlElementName::Button)
        } else if matches_name(&f, HtmlElementName::Label) {
            Some(HtmlElementName::Label)
        } else if matches_name(&f, HtmlElementName::Header) {
            Some(HtmlElementName::Header)
        } else if matches_name(&f, HtmlElementName::Footer) {
            Some(HtmlElementName::Footer)
        } else if matches_name(&f, HtmlElementName::Nav) {
            Some(HtmlElementName::Nav)
        } else if matches_name(&f, HtmlElementName::Main) {
            Some(HtmlElementName::Main)
        } else if matches_name(&f, HtmlElementName::Section) {
            Some(HtmlElementName::Section)
        } else if matches_name(&f, HtmlElementName::Article) {
            Some(HtmlElementName::Article)
        } else if matches_name(&f, HtmlElementName::Strong) {
            Some(HtmlElementName::Strong)
        } else if matches_name(&f, HtmlElementName::Em) {
            Some(HtmlElementName::Em)
        } else if matches_name(&f, HtmlElementName::B) {
            Some(HtmlElementName::B)
        } else if matches_name(&f, HtmlElementName::I) {
            Some(HtmlElementName::I)
        } else if matches_name(&f, HtmlElementName::Iframe) {
            Some(HtmlElementName::Iframe)
        } else {
            None
        }
    }
}

} // verus!

verus! {

impl HtmlElementName {
    /// Whether this is the name `other`.
    pub fn is_element(&self, other: HtmlElementName) -> (r: bool)
        ensures
            r == (*self == other),
    {
        *self == other
    }

    /// Whether this names a raw-text element (script or style).
    pub fn is_raw_text(&self) -> (r: bool)
        ensures
            r == is_raw_text(*self),
    {
        *self == HtmlElementName::Script || *self == HtmlElementName::Style
    }
}

/// `s` with ASCII upper-case letters folded to lower case.
pub fn fold_chars(s: &Vec<char>) -> (r: Vec<char>)
    ensures
        r@ == fold_text(s@),
{
    let mut r: Vec<char> = Vec::new();
    let mut i: usize = 0;
    while i < s.len()
        invariant
            i <= s@.len(),
            r@ == fold_text(s@.subrange(0, i as int)),
        decreases s@.len() - i,
    {
        let c = s[i];
        let d = if 'A' <= c && c <= 'Z' {
            ((c as u8) + 32) as char
        } else {
            c
        };
        assert(d == fold_char(c));
        r.push(d);
        i = i + 1;
        assert(fold_text(s@.subrange(0, i as int)) =~= fold_text(s@.subrange(0, i - 1)).push(d));
    }
    assert(s@.subrange(0, s@.len() as int) =~= s@);
    r
}

/// Whether `f` is exactly the text of `n`.
pub fn matches_name(f: &Vec<char>, n: HtmlElementName) -> (r: bool)
    ensures
        r == (f@ == name_text(n)),
{
    let t = n.chars();
    if f.len() != t.len() {
        return false;
    }
    let mut i: usize = 0;
    while i < f.len()
        invariant
            f@.len() == t@.len(),
            t@ == name_text(n),
            i <= f@.len(),
            forall|j: int| 0 <= j < i ==> f@[j] == t@[j],
        decreases f@.len() - i,
    {
        if f[i] != t[i] {
            return false;
        }
        i = i + 1;
    }
    assert(f@ =~= t@);
    true
}

} // verus!

verus! {

/// The map that a list of (name, value) pairs stands for; a later pair wins
/// over an earlier one with the same name.
pub open spec fn pairs_map(e: Seq<(String, String)>) -> Map<Seq<char>, Seq<char>>
    decreases e.len(),
{
    if e.len() == 0 {
        Map::empty()
    } else {
        pairs_map(e.drop_last()).insert(e.last().0@, e.last().1@)
    }
}

/// No name stands in two pairs.
pub open spec fn keys_unique(e: Seq<(String, String)>) -> bool {
    forall|i: int, j: int| 0 <= i < j < e.len() ==> e[i].0@ != e[j].0@
}

proof fn lemma_pairs_map_absent(e: Seq<(String, String)>, k: Seq<char>)
    requires
        forall|i: int| 0 <= i < e.len() ==> e[i].0@ != k,
    ensures
        !pairs_map(e).contains_key(k),
    decreases e.len(),
{
    if e.len() > 0 {
        lemma_pairs_map_absent(e.drop_last(), k);
    }
}

proof fn lemma_pairs_map_at(e: Seq<(String, String)>, i: int)
    requires
        keys_unique(e),
        0 <= i < e.len(),
    ensures
        pairs_map(e).contains_key(e[i].0@),
        pairs_map(e)[e[i].0@] == e[i].1@,
    decreases e.len(),
{
    if i < e.len() - 1 {
        lemma_pairs_map_at(e.drop_last(), i);
    }
}

proof fn lemma_pairs_map_update(e: Seq<(String, String)>, i: int, p: (String, String))
    requires
        keys_unique(e),
        0 <= i < e.len(),
        p.0@ == e[i].0@,
    ensures
        pairs_map(e.update(i, p)) == pairs_map(e).insert(p.0@, p.1@),
    decreases e.len(),
{
    let u = e.update(i, p);
    if i == e.len() - 1 {
        assert(u.drop_last() =~= e.drop_last());
    } else {
        assert(u.drop_last() =~= e.drop_last().update(i, p));
        lemma_pairs_map_update(e.drop_last(), i, p);
    }
    assert(pairs_map(u) =~= pairs_map(e).insert(p.0@, p.1@));
}

/// The attributes of an element: a map from names to values, each name once.
#[derive(Debug)]
pub struct HtmlAttributes {
    entries: Vec<(String, String)>,
}

impl View for HtmlAttributes {
    type V = Map<Seq<char>, Seq<char>>;

    closed spec fn view(&self) -> Map<Seq<char>, Seq<char>> {
        pairs_map(self.entries@)
    }
}

impl HtmlAttributes {
    #[verifier::type_invariant]
    spec fn inv(&self) -> bool {
        keys_unique(self.entries@)
    }

    /// No attributes.
    pub fn new() -> (r: HtmlAttributes)
        ensures
            r@ == Map::<Seq<char>, Seq<char>>::empty(),
    {
        HtmlAttributes { entries: Vec::new() }
    }

    /// Number of attributes.
    pub fn len(&self) -> (r: usize)
        ensures
            r == self@.len(),
    {
        proof {
            use_type_invariant(self);
            self.lemma_len();
        }
        self.entries.len()
    }

    proof fn lemma_len(&self)
        requires
            keys_unique(self.entries@),
        ensures
            self@.len() == self.entries@.len(),
            self@.dom().finite(),
    {
        lemma_pairs_map_len(self.entries@);
    }

    /// The value stored under `name`, if any.
    pub fn get(&self, name: &str) -> (r: Option<&String>)
        ensures
            r is Some <==> self@.contains_key(name@),
            r is Some ==> r->0@ == self@[name@],
    {
        proof {
            use_type_invariant(self);
        }
        let key = name.to_owned();
        let mut i: usize = 0;
        while i < self.entries.len()
            invariant
                i <= self.entries@.len(),
                key@ == name@,
                keys_unique(self.entries@),
                forall|j: int| 0 <= j < i ==> self.entries@[j].0@ != key@,
            decreases self.entries@.len() - i,
        {
            if self.entries[i].0 == key {
                proof {
                    lemma_pairs_map_at(self.entries@, i as int);
                }
                return Some(&self.entries[i].1);
            }
            i = i + 1;
        }
        proof {
            lemma_pairs_map_absent(self.entries@, key@);
        }
        None
    }

    /// One of the pairs, for `i` below the number of attributes; each pair
    /// has one position.
    pub fn entry(&self, i: usize) -> (r: Option<(&String, &String)>)
        ensures
            r is Some <==> i < self@.len(),
            r is Some ==> self@.contains_key(r.unwrap().0@) && self@[r.unwrap().0@] == r.unwrap().1@,
    {
        proof {
            use_type_invariant(self);
            self.lemma_len();
        }
        if i < self.entries.len() {
            proof {
                lemma_pairs_map_at(self.entries@, i as int);
            }
            Some((&self.entries[i].0, &self.entries[i].1))
        } else {
            None
        }
    }

    /// Stores `value` under `name`, replacing an earlier value.
    pub fn insert(&mut self, name: String, value: String)
        ensures
            final(self)@ == old(self)@.insert(name@, value@),
    {
        proof {
            use_type_invariant(&*self);
        }
        let mut entries: Vec<(String, String)> = Vec::new();
        std::mem::swap(&mut entries, &mut self.entries);
        let ghost e0 = entries@;
        let mut i: usize = 0;
        while i < entries.len()
            invariant
                i <= entries@.len(),
                entries@ == e0,
                keys_unique(e0),
                forall|j: int| 0 <= j < i ==> e0[j].0@ != name@,
            ensures
                i <= entries@.len(),
                entries@ == e0,
                forall|j: int| 0 <= j < i ==> e0[j].0@ != name@,
                i < entries@.len() ==> e0[i as int].0@ == name@,
            decreases entries@.len() - i,
        {
            if entries[i].0 == name {
                break;
            }
            i = i + 1;
        }
        if i < entries.len() {
            let ghost p = (name, value);
            proof {
                lemma_pairs_map_update(e0, i as int, p);
            }
            entries.set(i, (name, value));
            assert(entries@ == e0.update(i as int, p));
            assert(keys_unique(entries@));
        } else {
            entries.push((name, value));
            assert(entries@.drop_last() =~= e0);
            assert(keys_unique(entries@));
        }
        self.entries = entries;
    }

    /// A copy with the same pairs.
    pub fn duplicate(&self) -> (r: HtmlAttributes)
        ensures
            r@ == self@,
    {
        proof {
            use_type_invariant(self);
        }
        let mut entries: Vec<(String, String)> = Vec::new();
        let mut i: usize = 0;
        while i < self.entries.len()
            invariant
                i <= self.entries@.len(),
                entries@ == self.entries@.subrange(0, i as int),
            decreases self.entries@.len() - i,
        {
            let n = self.entries[i].0.clone();
            let v = self.entries[i].1.clone();
            entries.push((n, v));
            i = i + 1;
        }
        assert(entries@ =~= self.entries@);
        HtmlAttributes { entries }
    }
}

proof fn lemma_pairs_map_len(e: Seq<(String, String)>)
    requires
        keys_unique(e),
    ensures
        pairs_map(e).dom().finite(),
        pairs_map(e).len() == e.len(),
    decreases e.len(),
{
    if e.len() > 0 {
        let d = e.drop_last();
        lemma_pairs_map_len(d);
        lemma_pairs_map_absent(d, e.last().0@);
    }
}

/// What an element is: its name and its attributes.
pub struct ElementModel {
    pub name: HtmlElementName,
    pub attributes: Map<Seq<char>, Seq<char>>,
}

/// An element as events carry it.
#[derive(Debug)]
pub struct HtmlElement {
    pub name: HtmlElementName,
    pub attributes: HtmlAttributes,
}

impl View for HtmlElement {
    type V = ElementModel;

    open spec fn view(&self) -> ElementModel {
        ElementModel { name: self.name, attributes: self.attributes@ }
    }
}

impl HtmlElement {
    /// A copy of the element.
    pub fn duplicate(&self) -> (r: HtmlElement)
        ensures
            r@ == self@,
    {
        HtmlElement { name: self.name, attributes: self.attributes.duplicate() }
    }
}

} // verus!

verus! {

/// A character that may stand in a tag name without ending it.
pub open spec fn is_name_char(c: char) -> bool {
    ('a' <= c && c <= 'z') || ('0' <= c && c <= '9') || c == '!'
}

/// Every name is written with lower-case letters, digits and `!`.
pub proof fn lemma_name_text(n: HtmlElementName)
    ensures
        name_text(n).len() > 0,
        forall|i: int| 0 <= i < name_text(n).len() ==> is_name_char(#[trigger] name_text(n)[i]),
{
}

/// A text that the lookup recognizes is the text of the name it finds.
pub proof fn lemma_name_for(f: Seq<char>)
    ensures
        name_for(f) matches Some(n) ==> f == name_text(n),
{
}

} // verus!
