//! The lexical state machine: one character in, zero or more events out.
use vstd::prelude::*;

use crate::element::{
    fold_text, is_raw_text, name_for, ElementModel, HtmlAttributes, HtmlElement, HtmlElementName,
};
use crate::text::{
    attr_name_of, copy_range, count_quotes, is_whitespace, is_ws, quote_count, raw_value_of,
    split_attribute, string_of, trim, trimmed, unquote,
};

verus! {

/// A structural event of the document.
#[derive(Debug)]
pub enum HtmlEvent {
    HtmlElementOpened { opened_element: HtmlElement },
    HtmlElementClosed { closed_element: HtmlElement },
    TextContent(String),
    HtmlDocumentEnd,
}

/// What an event says.
pub enum EventModel {
    Opened(ElementModel),
    Closed(ElementModel),
    Text(Seq<char>),
    End,
}

impl View for HtmlEvent {
    type V = EventModel;

    open spec fn view(&self) -> EventModel {
        match self {
            HtmlEvent::HtmlElementOpened { opened_element } => EventModel::Opened(opened_element@),
            HtmlEvent::HtmlElementClosed { closed_element } => EventModel::Closed(closed_element@),
            HtmlEvent::TextContent(t) => EventModel::Text(t@),
            HtmlEvent::HtmlDocumentEnd => EventModel::End,
        }
    }
}

/// The tokenizer's state between two characters.
pub struct LexState {
    /// The name of the tag being read, once it is known.
    pub current: Option<HtmlElementName>,
    /// The elements opened and not yet closed, innermost last.
    pub stack: Seq<ElementModel>,
    /// Whether a `<` has been seen and its `>` not yet.
    pub inside: bool,
    /// Whether the tag being read closes an element.
    pub closing: bool,
    /// The attributes of the tag being read.
    pub attrs: Map<Seq<char>, Seq<char>>,
    /// The characters not yet classified: a name, an attribute or a text run.
    pub text: Seq<char>,
}

/// The state before the first character.
pub open spec fn initial_lex() -> LexState {
    LexState {
        current: None,
        stack: Seq::empty(),
        inside: false,
        closing: false,
        attrs: Map::empty(),
        text: Seq::empty(),
    }
}

/// Whether the innermost open element is a raw-text element.
pub open spec fn top_is_raw(s: LexState) -> bool {
    s.stack.len() > 0 && is_raw_text(s.stack.last().name)
}

/// Inside a tag whose name is not known yet, the accumulated text becomes
/// the name when it is one.
pub open spec fn resolve_name(s: LexState) -> LexState {
    if s.inside && s.current is None && name_for(fold_text(s.text)) is Some {
        LexState { current: name_for(fold_text(s.text)), text: Seq::empty(), ..s }
    } else {
        s
    }
}

/// Inside a named tag, a token with no quote or with one quoted value
/// becomes an attribute (dropped when its name is empty); with any other
/// number of quotes a quoted value is still open and the token waits.
pub open spec fn finish_attribute(s: LexState) -> LexState {
    let q = count_quotes(s.text);
    if s.inside && s.current is Some && s.text.len() > 0 && (q == 0 || q == 2) {
        let name = attr_name_of(s.text);
        let value = unquote(raw_value_of(s.text));
        LexState {
            attrs: if name.len() > 0 {
                s.attrs.insert(name, value)
            } else {
                s.attrs
            },
            text: Seq::empty(),
            ..s
        }
    } else {
        s
    }
}

/// Whitespace ends the token being accumulated.
pub open spec fn on_whitespace(s: LexState) -> LexState {
    if s.text.len() == 0 {
        s
    } else {
        let s1 = resolve_name(s);
        if s1.current is Some {
            finish_attribute(s1)
        } else {
            s1
        }
    }
}

/// `seq![e]` when the text is not empty, else nothing.
pub open spec fn text_event(t: Seq<char>) -> Seq<EventModel> {
    if t.len() > 0 {
        seq![EventModel::Text(t)]
    } else {
        Seq::empty()
    }
}

/// `s` without its last element, when it has one.
pub open spec fn pop_stack(s: Seq<ElementModel>) -> Seq<ElementModel> {
    if s.len() > 0 {
        s.drop_last()
    } else {
        s
    }
}

/// `>` inside a tag: an unknown tag is dropped; a known one opens or closes
/// an element.
pub open spec fn on_close_bracket(s: LexState) -> (LexState, Seq<EventModel>) {
    let s1 = resolve_name(s);
    if s1.current is None {
        (
            LexState { inside: false, closing: false, attrs: Map::empty(), text: Seq::empty(), ..s1 },
            Seq::empty(),
        )
    } else {
        let s2 = finish_attribute(s1);
        let el = ElementModel { name: s2.current->0, attributes: s2.attrs };
        (
            LexState {
                current: None,
                stack: if s2.closing {
                    pop_stack(s2.stack)
                } else {
                    s2.stack.push(el)
                },
                inside: false,
                closing: false,
                attrs: Map::empty(),
                text: Seq::empty(),
            },
            if s2.closing {
                seq![EventModel::Closed(el)]
            } else {
                seq![EventModel::Opened(el)]
            },
        )
    }
}

/// `/`: the end of a raw-text body (`<` then `/`), or the mark of a closing
/// tag right after its `<`; elsewhere an ordinary character.
/// The flag says whether the character is kept out of the accumulator.
pub open spec fn on_slash(s: LexState) -> (LexState, Seq<EventModel>, bool) {
    let t = trim(s.text);
    if top_is_raw(s) && t.len() > 0 && t.last() == '<' {
        (
            LexState { text: Seq::empty(), inside: true, closing: true, ..s },
            text_event(trim(t.drop_last())),
            true,
        )
    } else if s.inside && t.len() == 0 {
        (LexState { closing: true, ..s }, Seq::empty(), true)
    } else {
        (s, Seq::empty(), false)
    }
}

/// `<`: outside tags and raw text, ends the text run and starts a tag.
pub open spec fn on_open_bracket(s: LexState) -> (LexState, Seq<EventModel>, bool) {
    if s.inside || top_is_raw(s) {
        (s, Seq::empty(), false)
    } else {
        (LexState { text: Seq::empty(), inside: true, ..s }, text_event(trim(s.text)), true)
    }
}

/// One character: the next state and the events it produces.
pub open spec fn step(s: LexState, c: char) -> (LexState, Seq<EventModel>) {
    let r: (LexState, Seq<EventModel>, bool) = if c == '/' {
        on_slash(s)
    } else if c == '<' {
        on_open_bracket(s)
    } else if c == '>' && s.inside {
        (on_close_bracket(s).0, on_close_bracket(s).1, true)
    } else if is_ws(c) {
        (on_whitespace(s), Seq::empty(), false)
    } else {
        (s, Seq::empty(), false)
    };
    if r.2 {
        (r.0, r.1)
    } else {
        (LexState { text: r.0.text.push(c), ..r.0 }, r.1)
    }
}

/// The state after the characters `cs`, fed from the state `s`, and the
/// events they produced, in order.
pub open spec fn run_from(s: LexState, cs: Seq<char>) -> (LexState, Seq<EventModel>)
    decreases cs.len(),
{
    if cs.len() == 0 {
        (s, Seq::empty())
    } else {
        let prev = run_from(s, cs.drop_last());
        let next = step(prev.0, cs.last());
        (next.0, prev.1 + next.1)
    }
}

/// The state after the characters `cs`, from the start, and every event
/// they produced, in order.
pub open spec fn run(cs: Seq<char>) -> (LexState, Seq<EventModel>) {
    run_from(initial_lex(), cs)
}

/// One more character: one more step from where the others left off.
pub proof fn lemma_run_push(cs: Seq<char>, c: char)
    ensures
        run(cs.push(c)).0 == step(run(cs).0, c).0,
        run(cs.push(c)).1 == run(cs).1 + step(run(cs).0, c).1,
{
    assert(cs.push(c).drop_last() =~= cs);
}

/// Feeding `a + b` is feeding `a`, then `b` from where `a` left off.
pub proof fn lemma_run_from_concat(s: LexState, a: Seq<char>, b: Seq<char>)
    ensures
        run_from(s, a + b).0 == run_from(run_from(s, a).0, b).0,
        run_from(s, a + b).1 == run_from(s, a).1 + run_from(run_from(s, a).0, b).1,
    decreases b.len(),
{
    if b.len() == 0 {
        assert(a + b =~= a);
        assert(run_from(s, a).1 + Seq::<EventModel>::empty() =~= run_from(s, a).1);
    } else {
        assert((a + b).drop_last() =~= a + b.drop_last());
        lemma_run_from_concat(s, a, b.drop_last());
        let mid = run_from(s, a).0;
        assert(run_from(s, a + b).1 =~= run_from(s, a).1 + run_from(mid, b).1);
    }
}

/// The events that the characters `cs` produce.
pub open spec fn events_of(cs: Seq<char>) -> Seq<EventModel> {
    run(cs).1
}

/// What an optional event adds to the stream.
pub open spec fn opt_events(e: Option<HtmlEvent>) -> Seq<EventModel> {
    match e {
        Some(ev) => seq![ev@],
        None => Seq::empty(),
    }
}

/// The tokenizer proper, with the queue of events not yet handed out.
pub struct Lexer {
    current_element: Option<HtmlElementName>,
    elements: Vec<HtmlElement>,
    inside_brackets: bool,
    is_closing_element: bool,
    defined_attributes: HtmlAttributes,
    text_content: Vec<char>,
    events: std::collections::VecDeque<HtmlEvent>,
}

impl Lexer {
    /// The state of the tokenizer.
    pub closed spec fn lex(&self) -> LexState {
        LexState {
            current: self.current_element,
            stack: self.elements@.map_values(|e: HtmlElement| e@),
            inside: self.inside_brackets,
            closing: self.is_closing_element,
            attrs: self.defined_attributes@,
            text: self.text_content@,
        }
    }

    /// The events produced and not yet taken, oldest first.
    pub closed spec fn queue(&self) -> Seq<EventModel> {
        self.events@.map_values(|e: HtmlEvent| e@)
    }

    /// A tokenizer before the first character.
    pub fn new() -> (r: Lexer)
        ensures
            r.lex() == initial_lex(),
            r.queue() == Seq::<EventModel>::empty(),
    {
        let r = Lexer {
            current_element: None,
            elements: Vec::new(),
            inside_brackets: false,
            is_closing_element: false,
            defined_attributes: HtmlAttributes::new(),
            text_content: Vec::new(),
            events: std::collections::VecDeque::new(),
        };
        assert(r.lex().stack =~= Seq::<ElementModel>::empty());
        assert(r.queue() =~= Seq::<EventModel>::empty());
        r
    }

    fn top_is_raw(&self) -> (r: bool)
        ensures
            r == top_is_raw(self.lex()),
    {
        let n = self.elements.len();
        n > 0 && self.elements[n - 1].name.is_raw_text()
    }

    fn fill_element_from_text_content(&mut self) -> (r: bool)
        ensures
            final(self).lex() == resolve_name(old(self).lex()),
            final(self).events@ == old(self).events@,
            r == final(self).lex().current is Some,
    {
        if self.inside_brackets && self.current_element.is_none() {
            let found = HtmlElementName::lookup(&self.text_content);
            if found.is_some() {
                self.current_element = found;
                self.text_content = Vec::new();
            }
        }
        proof {
            assert(self.lex().text =~= resolve_name(old(self).lex()).text);
        }
        self.current_element.is_some()
    }

    fn fill_attribute(&mut self)
        ensures
            final(self).lex() == finish_attribute(old(self).lex()),
            final(self).events@ == old(self).events@,
    {
        if !self.inside_brackets || self.current_element.is_none() || self.text_content.len() == 0 {
            return;
        }
        let q = quote_count(&self.text_content);
        if q == 0 || q == 2 {
            let (name, value) = split_attribute(&self.text_content);
            if name.len() > 0 {
                let n = string_of(&name);
                let v = string_of(&value);
                self.defined_attributes.insert(n, v);
            }
            self.text_content = Vec::new();
            assert(self.lex().text =~= finish_attribute(old(self).lex()).text);
        }
    }

    fn handle_whitespace(&mut self)
        ensures
            final(self).lex() == on_whitespace(old(self).lex()),
            final(self).events@ == old(self).events@,
    {
        if self.text_content.len() == 0 {
            return;
        }
        let named = self.fill_element_from_text_content();
        if named {
            self.fill_attribute();
        }
    }

    fn handle_closing_bracket(&mut self) -> (r: Option<HtmlEvent>)
        ensures
            final(self).lex() == on_close_bracket(old(self).lex()).0,
            opt_events(r) == on_close_bracket(old(self).lex()).1,
            final(self).events@ == old(self).events@,
    {
        let named = self.fill_element_from_text_content();
        if !named {
            self.inside_brackets = false;
            self.is_closing_element = false;
            self.defined_attributes = HtmlAttributes::new();
            self.text_content = Vec::new();
            assert(self.lex().text =~= on_close_bracket(old(self).lex()).0.text);
            return None;
        }
        self.fill_attribute();
        let ghost s2 = self.lex();
        let name = self.current_element.unwrap();
        let mut attributes = HtmlAttributes::new();
        std::mem::swap(&mut attributes, &mut self.defined_attributes);
        let element = HtmlElement { name, attributes };
        let event = if self.is_closing_element {
            self.elements.pop();
            proof {
                if s2.stack.len() > 0 {
                    assert(self.lex().stack =~= s2.stack.drop_last());
                }
            }
            HtmlEvent::HtmlElementClosed { closed_element: element }
        } else {
            self.elements.push(element.duplicate());
            assert(self.lex().stack =~= s2.stack.push(element@));
            HtmlEvent::HtmlElementOpened { opened_element: element }
        };
        self.inside_brackets = false;
        self.is_closing_element = false;
        self.current_element = None;
        self.text_content = Vec::new();
        assert(self.lex().text =~= on_close_bracket(old(self).lex()).0.text);
        Some(event)
    }

    fn handle_closing_element(&mut self) -> (r: (Option<HtmlEvent>, bool))
        ensures
            final(self).lex() == on_slash(old(self).lex()).0,
            opt_events(r.0) == on_slash(old(self).lex()).1,
            r.1 == on_slash(old(self).lex()).2,
            final(self).events@ == old(self).events@,
    {
        let t = trimmed(&self.text_content);
        if self.top_is_raw() && t.len() > 0 && t[t.len() - 1] == '<' {
            let body = copy_range(&t, 0, t.len() - 1);
            assert(body@ =~= t@.drop_last());
            let content = trimmed(&body);
            let event = if content.len() > 0 {
                Some(HtmlEvent::TextContent(string_of(&content)))
            } else {
                None
            };
            self.text_content = Vec::new();
            self.inside_brackets = true;
            self.is_closing_element = true;
            assert(self.lex().text =~= on_slash(old(self).lex()).0.text);
            return (event, true);
        }
        if self.inside_brackets && t.len() == 0 {
            self.is_closing_element = true;
            return (None, true);
        }
        (None, false)
    }

    fn handle_opening_bracket(&mut self) -> (r: (Option<HtmlEvent>, bool))
        ensures
            final(self).lex() == on_open_bracket(old(self).lex()).0,
            opt_events(r.0) == on_open_bracket(old(self).lex()).1,
            r.1 == on_open_bracket(old(self).lex()).2,
            final(self).events@ == old(self).events@,
    {
        if self.inside_brackets || self.top_is_raw() {
            return (None, false);
        }
        let t = trimmed(&self.text_content);
        let event = if t.len() > 0 {
            Some(HtmlEvent::TextContent(string_of(&t)))
        } else {
            None
        };
        self.text_content = Vec::new();
        self.inside_brackets = true;
        assert(self.lex().text =~= on_open_bracket(old(self).lex()).0.text);
        (event, true)
    }

    /// Feeds one character; the events it produces join the queue.
    pub fn advance(&mut self, c: char)
        ensures
            final(self).lex() == step(old(self).lex(), c).0,
            final(self).queue() == old(self).queue() + step(old(self).lex(), c).1,
    {
        let (event, suppress) = if c == '/' {
            self.handle_closing_element()
        } else if c == '<' {
            self.handle_opening_bracket()
        } else if c == '>' && self.inside_brackets {
            (self.handle_closing_bracket(), true)
        } else if is_whitespace(c) {
            self.handle_whitespace();
            (None, false)
        } else {
            (None, false)
        };
        let ghost q0 = self.queue();
        match event {
            Some(e) => {
                self.events.push_back(e);
                assert(self.queue() =~= q0 + opt_events(Some(e)));
            },
            None => {
                assert(self.queue() =~= q0 + opt_events(None));
            },
        }
        if !suppress {
            self.text_content.push(c);
        }
    }

    /// Takes the oldest event of the queue, if there is one.
    pub fn pop_event(&mut self) -> (r: Option<HtmlEvent>)
        ensures
            final(self).lex() == old(self).lex(),
            old(self).queue().len() == 0 ==> r is None && final(self).queue() == old(self).queue(),
            old(self).queue().len() > 0 ==> r is Some && r->0@ == old(self).queue()[0]
                && final(self).queue() == old(self).queue().drop_first(),
    {
        let r = self.events.pop_front();
        proof {
            if old(self).queue().len() > 0 {
                assert(self.queue() =~= old(self).queue().drop_first());
            }
        }
        r
    }
}

} // verus!
