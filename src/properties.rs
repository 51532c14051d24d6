//! Facts about the whole event stream, stated over the tokenizer's model.
use vstd::prelude::*;

use crate::element::{
    fold_char, fold_text, is_name_char, is_raw_text, lemma_name_for, lemma_name_text, name_for, name_text,
    ElementModel, HtmlElementName,
};
use crate::decoder::{decode, lemma_decode_concat};
use crate::lexer::{
    events_of, initial_lex, lemma_run_from_concat, on_close_bracket, on_open_bracket, on_slash,
    pop_stack, run, run_from, step, text_event, top_is_raw, EventModel, LexState,
};
use crate::text::{
    attr_name_of, count_quotes, first_eq_from, is_trimmed_text, is_ws, lemma_count_quotes_concat,
    lemma_count_quotes_none, lemma_first_eq_at, lemma_trim_after_space, lemma_trim_ends,
    lemma_trim_nonempty, lemma_trim_trimmed, raw_value_of, trim, unquote,
};

verus! {

/// Every text event of the sequence is trimmed and not empty.
pub open spec fn texts_trimmed(evs: Seq<EventModel>) -> bool {
    forall|i: int|
        0 <= i < evs.len() && #[trigger] evs[i] is Text ==> is_trimmed_text(evs[i]->Text_0)
}

proof fn lemma_text_event_trimmed(t: Seq<char>)
    ensures
        texts_trimmed(text_event(trim(t))),
{
    lemma_trim_ends(t);
}

proof fn lemma_step_texts_trimmed(s: LexState, c: char)
    ensures
        texts_trimmed(step(s, c).1),
{
    let t = trim(s.text);
    lemma_text_event_trimmed(s.text);
    lemma_text_event_trimmed(t.drop_last());
    assert(texts_trimmed(on_slash(s).1));
    assert(texts_trimmed(on_open_bracket(s).1));
    assert(texts_trimmed(on_close_bracket(s).1));
}

/// Text runs come out trimmed: every text event of any input is non-empty
/// and neither begins nor ends with whitespace, so a run of whitespace
/// alone gives no event.
pub proof fn lemma_text_events_trimmed(cs: Seq<char>)
    ensures
        texts_trimmed(events_of(cs)),
    decreases cs.len(),
{
    if cs.len() > 0 {
        let prev = run(cs.drop_last());
        lemma_text_events_trimmed(cs.drop_last());
        lemma_step_texts_trimmed(prev.0, cs.last());
        let all = events_of(cs);
        let a = prev.1;
        let b = step(prev.0, cs.last()).1;
        assert(all == a + b);
        assert forall|i: int| 0 <= i < all.len() && #[trigger] all[i] is Text implies is_trimmed_text(
            all[i]->Text_0,
        ) by {
            if i < a.len() {
                assert(all[i] == a[i]);
            } else {
                assert(all[i] == b[i - a.len()]);
            }
        }
    }
}

/// A tag with no attributes, `<written>` or `</written>`.
pub struct Tag {
    pub closing: bool,
    pub written: Seq<char>,
}

/// The text of a tag.
pub open spec fn tag_text(t: Tag) -> Seq<char> {
    seq!['<'] + (if t.closing {
        seq!['/']
    } else {
        Seq::<char>::empty()
    }) + t.written + seq!['>']
}

/// The tags written one after the other.
pub open spec fn tags_text(ts: Seq<Tag>) -> Seq<char>
    decreases ts.len(),
{
    if ts.len() == 0 {
        Seq::empty()
    } else {
        tags_text(ts.drop_last()) + tag_text(ts.last())
    }
}

/// The element that a tag names, when the name is recognized.
pub open spec fn tag_name(t: Tag) -> Option<HtmlElementName> {
    name_for(fold_text(t.written))
}

/// A tag of a recognized element that is not a raw-text element.
pub open spec fn plain_element_tag(t: Tag) -> bool {
    tag_name(t) matches Some(n) && !is_raw_text(n)
}

/// The event that a tag of a recognized element gives.
pub open spec fn tag_event(t: Tag) -> EventModel {
    let el = ElementModel { name: tag_name(t)->0, attributes: Map::empty() };
    if t.closing {
        EventModel::Closed(el)
    } else {
        EventModel::Opened(el)
    }
}

/// A character that can stand in a tag name: no whitespace, no `/`, `<`, `>`.
pub open spec fn is_plain(c: char) -> bool {
    c != '/' && c != '<' && c != '>' && !is_ws(c)
}

/// Between two tags: nothing pending, and no raw-text element open.
pub open spec fn at_rest(s: LexState) -> bool {
    &&& !s.inside
    &&& !s.closing
    &&& s.current is None
    &&& s.text.len() == 0
    &&& s.attrs == Map::<Seq<char>, Seq<char>>::empty()
    &&& forall|i: int| 0 <= i < s.stack.len() ==> !is_raw_text(#[trigger] s.stack[i].name)
}

/// The open elements after a tag of a recognized element.
pub open spec fn stack_after(st: Seq<ElementModel>, t: Tag) -> Seq<ElementModel> {
    if t.closing {
        pop_stack(st)
    } else {
        st.push(ElementModel { name: tag_name(t)->0, attributes: Map::empty() })
    }
}

/// The open elements after a sequence of tags.
pub open spec fn stack_after_tags(st: Seq<ElementModel>, ts: Seq<Tag>) -> Seq<ElementModel>
    decreases ts.len(),
{
    if ts.len() == 0 {
        st
    } else {
        stack_after(stack_after_tags(st, ts.drop_last()), ts.last())
    }
}

/// Each closing tag closes the innermost element still open, and all are
/// closed at the end; `open` holds the elements open before `ts`.
pub open spec fn tags_nest(ts: Seq<Tag>, open: Seq<HtmlElementName>) -> bool
    decreases ts.len(),
{
    if ts.len() == 0 {
        open.len() == 0
    } else {
        let n = tag_name(ts[0])->0;
        if ts[0].closing {
            open.len() > 0 && open.last() == n && tags_nest(ts.drop_first(), open.drop_last())
        } else {
            tags_nest(ts.drop_first(), open.push(n))
        }
    }
}

/// Each close event closes the innermost element opened and not yet closed,
/// all are closed at the end, and there is nothing else.
pub open spec fn events_nest(evs: Seq<EventModel>, open: Seq<HtmlElementName>) -> bool
    decreases evs.len(),
{
    if evs.len() == 0 {
        open.len() == 0
    } else {
        match evs[0] {
            EventModel::Opened(el) => events_nest(evs.drop_first(), open.push(el.name)),
            EventModel::Closed(el) => open.len() > 0 && open.last() == el.name && events_nest(
                evs.drop_first(),
                open.drop_last(),
            ),
            _ => false,
        }
    }
}

proof fn lemma_run_single(s: LexState, c: char)
    ensures
        run_from(s, seq![c]).0 == step(s, c).0,
        run_from(s, seq![c]).1 == step(s, c).1,
{
    let one = seq![c];
    assert(one.drop_last() =~= Seq::<char>::empty());
    assert(one.last() == c);
    assert(run_from(s, one.drop_last()).0 == s);
    assert(run_from(s, one.drop_last()).1 == Seq::<EventModel>::empty());
    assert(Seq::<EventModel>::empty() + step(s, c).1 =~= step(s, c).1);
}

proof fn lemma_run_plain(s: LexState, w: Seq<char>)
    requires
        forall|i: int| 0 <= i < w.len() ==> is_plain(#[trigger] w[i]),
    ensures
        run_from(s, w).0 == (LexState { text: s.text + w, ..s }),
        run_from(s, w).1 == Seq::<EventModel>::empty(),
    decreases w.len(),
{
    if w.len() == 0 {
        assert(s.text + w =~= s.text);
    } else {
        let d = w.drop_last();
        lemma_run_plain(s, d);
        assert(is_plain(w[w.len() - 1]));
        assert(s.text + d + seq![w.last()] =~= s.text + w);
        assert((s.text + d).push(w.last()) =~= s.text + w);
        assert(Seq::<EventModel>::empty() + Seq::<EventModel>::empty() =~= Seq::<EventModel>::empty());
    }
}

/// The characters of a recognized name are plain.
proof fn lemma_recognized_plain(w: Seq<char>)
    requires
        name_for(fold_text(w)) is Some,
    ensures
        forall|i: int| 0 <= i < w.len() ==> is_plain(#[trigger] w[i]),
{
    let n = name_for(fold_text(w))->0;
    lemma_name_for(fold_text(w));
    lemma_name_text(n);
    assert forall|i: int| 0 <= i < w.len() implies is_plain(#[trigger] w[i]) by {
        assert(fold_text(w)[i] == fold_char(w[i]));
        assert(is_name_char(name_text(n)[i]));
    }
}

proof fn lemma_empty_trim()
    ensures
        trim(Seq::<char>::empty()) == Seq::<char>::empty(),
{
    assert(trim(Seq::<char>::empty()) =~= Seq::<char>::empty());
}

/// One tag from a state at rest: a recognized plain element opens or closes,
/// an unrecognized tag leaves everything as it was.
proof fn lemma_one_tag(s: LexState, t: Tag)
    requires
        at_rest(s),
        forall|i: int| 0 <= i < t.written.len() ==> is_plain(#[trigger] t.written[i]),
    ensures
        tag_name(t) is Some ==> run_from(s, tag_text(t)).0 == (LexState {
            stack: stack_after(s.stack, t),
            ..s
        }),
        tag_name(t) is Some ==> run_from(s, tag_text(t)).1 == seq![tag_event(t)],
        tag_name(t) is None ==> run_from(s, tag_text(t)).0 == s,
        tag_name(t) is None ==> run_from(s, tag_text(t)).1 == Seq::<EventModel>::empty(),
        plain_element_tag(t) || tag_name(t) is None ==> at_rest(run_from(s, tag_text(t)).0),
{
    let e = Seq::<EventModel>::empty();
    assert(s.text =~= Seq::<char>::empty());
    let slash: Seq<char> = if t.closing {
        seq!['/']
    } else {
        Seq::<char>::empty()
    };
    let y1 = seq!['<'];
    let y2 = y1 + slash;
    let y3 = y2 + t.written;
    assert(tag_text(t) == y3 + seq!['>']);
    lemma_empty_trim();
    // `<`
    lemma_run_single(s, '<');
    let s1 = LexState { text: Seq::empty(), inside: true, ..s };
    assert(run_from(s, y1).0 == s1);
    assert(run_from(s, y1).1 == e);
    // `/`
    let s2 = LexState { closing: t.closing, ..s1 };
    lemma_run_from_concat(s, y1, slash);
    if t.closing {
        lemma_run_single(s1, '/');
        assert(!crate::lexer::top_is_raw(s1));
    } else {
        assert(s1 == s2);
    }
    assert(run_from(s, y2).0 == s2);
    assert(run_from(s, y2).1 =~= e);
    // the name
    lemma_run_from_concat(s, y2, t.written);
    lemma_run_plain(s2, t.written);
    let s3 = LexState { text: t.written, ..s2 };
    assert(Seq::<char>::empty() + t.written =~= t.written);
    assert(run_from(s, y3).0 == s3);
    assert(run_from(s, y3).1 =~= e);
    // `>`
    lemma_run_from_concat(s, y3, seq!['>']);
    lemma_run_single(s3, '>');
    let r = run_from(s, tag_text(t));
    assert(r.1 == e + step(s3, '>').1);
    if tag_name(t) is Some {
        assert(r.1 =~= seq![tag_event(t)]);
        assert(r.0 == (LexState { stack: stack_after(s.stack, t), ..s }));
        if !plain_element_tag(t) {
        } else if !t.closing {
            assert forall|i: int| 0 <= i < r.0.stack.len() implies !is_raw_text(
                #[trigger] r.0.stack[i].name,
            ) by {
                if i < s.stack.len() {
                    assert(r.0.stack[i] == s.stack[i]);
                }
            }
        } else if s.stack.len() > 0 {
            assert forall|i: int| 0 <= i < r.0.stack.len() implies !is_raw_text(
                #[trigger] r.0.stack[i].name,
            ) by {
                assert(r.0.stack[i] == s.stack[i]);
            }
        }
    } else {
        assert(r.1 =~= e);
        assert(r.0 == s);
    }
}

proof fn lemma_tags(s: LexState, ts: Seq<Tag>)
    requires
        at_rest(s),
        forall|i: int| 0 <= i < ts.len() ==> plain_element_tag(#[trigger] ts[i]),
    ensures
        run_from(s, tags_text(ts)).0 == (LexState { stack: stack_after_tags(s.stack, ts), ..s }),
        run_from(s, tags_text(ts)).1 == ts.map_values(|t: Tag| tag_event(t)),
        at_rest(run_from(s, tags_text(ts)).0),
    decreases ts.len(),
{
    if ts.len() == 0 {
        assert(ts.map_values(|t: Tag| tag_event(t)) =~= Seq::<EventModel>::empty());
    } else {
        let d = ts.drop_last();
        let t = ts.last();
        assert(plain_element_tag(ts[ts.len() - 1]));
        lemma_tags(s, d);
        let mid = run_from(s, tags_text(d)).0;
        lemma_run_from_concat(s, tags_text(d), tag_text(t));
        lemma_recognized_plain(t.written);
        lemma_one_tag(mid, t);
        assert(ts.map_values(|t: Tag| tag_event(t)) =~= d.map_values(|t: Tag| tag_event(t)) + seq![
            tag_event(t),
        ]);
    }
}

proof fn lemma_tags_text_concat(a: Seq<Tag>, b: Seq<Tag>)
    ensures
        tags_text(a + b) == tags_text(a) + tags_text(b),
    decreases b.len(),
{
    if b.len() == 0 {
        assert(a + b =~= a);
        assert(tags_text(a) + tags_text(b) =~= tags_text(a));
    } else {
        assert((a + b).drop_last() =~= a + b.drop_last());
        lemma_tags_text_concat(a, b.drop_last());
        assert(tags_text(a + b) =~= tags_text(a) + tags_text(b));
    }
}

proof fn lemma_nest_mirror(ts: Seq<Tag>, open: Seq<HtmlElementName>)
    ensures
        events_nest(ts.map_values(|t: Tag| tag_event(t)), open) == tags_nest(ts, open),
    decreases ts.len(),
{
    if ts.len() > 0 {
        let m = ts.map_values(|t: Tag| tag_event(t));
        assert(m.drop_first() =~= ts.drop_first().map_values(|t: Tag| tag_event(t)));
        lemma_nest_mirror(ts.drop_first(), open.drop_last());
        lemma_nest_mirror(ts.drop_first(), open.push(tag_name(ts[0])->0));
    }
}

/// A document made of tags of recognized elements that are not raw text
/// gives one ElementOpened for each opening tag and one ElementClosed for
/// each closing tag, in the order of the tags. When the tags pair up, so do
/// the events: each close event closes the innermost element still open,
/// and none stays open.
pub proof fn lemma_tags_give_nested_events(ts: Seq<Tag>)
    requires
        forall|i: int| 0 <= i < ts.len() ==> plain_element_tag(#[trigger] ts[i]),
    ensures
        events_of(tags_text(ts)) == ts.map_values(|t: Tag| tag_event(t)),
        tags_nest(ts, Seq::empty()) ==> events_nest(events_of(tags_text(ts)), Seq::empty()),
{
    assert(initial_lex().text =~= Seq::<char>::empty());
    lemma_tags(initial_lex(), ts);
    lemma_nest_mirror(ts, Seq::empty());
}

/// A tag whose name is not recognized gives no event, and the document
/// goes on as if it were not there.
pub proof fn lemma_unknown_tag_ignored(before: Seq<Tag>, u: Tag, after: Seq<Tag>)
    requires
        forall|i: int| 0 <= i < before.len() ==> plain_element_tag(#[trigger] before[i]),
        forall|i: int| 0 <= i < after.len() ==> plain_element_tag(#[trigger] after[i]),
        tag_name(u) is None,
        forall|i: int| 0 <= i < u.written.len() ==> is_plain(#[trigger] u.written[i]),
    ensures
        events_of(tags_text(before) + tag_text(u) + tags_text(after)) == events_of(
            tags_text(before + after),
        ),
{
    let init = initial_lex();
    let a = tags_text(before);
    let b = tags_text(after);
    let w = tag_text(u);
    lemma_tags(init, before);
    let s1 = run_from(init, a).0;
    lemma_one_tag(s1, u);
    lemma_run_from_concat(init, a, w);
    lemma_run_from_concat(init, a + w, b);
    lemma_tags_text_concat(before, after);
    lemma_run_from_concat(init, a, b);
    assert(run_from(init, a + w).1 =~= run_from(init, a).1);
}

proof fn lemma_run_quoted_body(s: LexState, v: Seq<char>, m: int)
    requires
        s.inside,
        s.current is Some,
        s.stack.len() == 0,
        count_quotes(s.text) == 1,
        0 <= m < s.text.len(),
        !is_ws(s.text[m]),
        forall|i: int| 0 <= i < v.len() ==> #[trigger] v[i] != '"' && v[i] != '>',
    ensures
        run_from(s, v).0 == (LexState { text: s.text + v, ..s }),
        run_from(s, v).1 == Seq::<EventModel>::empty(),
    decreases v.len(),
{
    if v.len() == 0 {
        assert(s.text + v =~= s.text);
    } else {
        let d = v.drop_last();
        let c = v.last();
        assert(v[v.len() - 1] == c);
        lemma_run_quoted_body(s, d, m);
        lemma_count_quotes_none(d);
        lemma_count_quotes_concat(s.text, d);
        assert((s.text + d)[m] == s.text[m]);
        lemma_trim_nonempty(s.text + d, m);
        assert((s.text + d).push(c) =~= s.text + v);
        assert(Seq::<EventModel>::empty() + Seq::<EventModel>::empty() =~= Seq::<EventModel>::empty());
    }
}

/// `<w ` from the start: the name is known and the space is kept.
proof fn lemma_tag_head(w: Seq<char>)
    requires
        name_for(fold_text(w)) is Some,
    ensures
        run_from(initial_lex(), seq!['<'] + w + seq![' ']).0 == (LexState {
            current: name_for(fold_text(w)),
            text: seq![' '],
            inside: true,
            ..initial_lex()
        }),
        run_from(initial_lex(), seq!['<'] + w + seq![' ']).1 == Seq::<EventModel>::empty(),
{
    let e = Seq::<EventModel>::empty();
    let init = initial_lex();
    let n = name_for(fold_text(w))->0;
    lemma_empty_trim();
    lemma_name_for(fold_text(w));
    lemma_name_text(n);
    lemma_recognized_plain(w);
    let x1 = seq!['<'];
    let x2 = x1 + w;
    let x3 = x2 + seq![' '];
    lemma_run_single(init, '<');
    let r1 = LexState { text: Seq::empty(), inside: true, ..init };
    assert(run_from(init, x1).0 == r1);
    lemma_run_from_concat(init, x1, w);
    lemma_run_plain(r1, w);
    let r2 = LexState { text: w, ..r1 };
    assert(Seq::<char>::empty() + w =~= w);
    assert(run_from(init, x2).0 == r2);
    assert(run_from(init, x2).1 =~= e);
    assert(w.len() > 0);
    lemma_run_from_concat(init, x2, seq![' ']);
    lemma_run_single(r2, ' ');
    assert(Seq::<char>::empty().push(' ') =~= seq![' ']);
    assert(run_from(init, x3).1 =~= e);
}

/// The tag `<w k="v">`.
pub open spec fn quoted_attribute_tag(w: Seq<char>, k: Seq<char>, v: Seq<char>) -> Seq<char> {
    seq!['<'] + w + seq![' '] + k + seq!['=', '"'] + v + seq!['"', '>']
}

/// A quoted attribute value is kept whole, whitespace included. In the tag
/// `<w k="v">`, where `w` is a recognized name, `k` is a name without
/// whitespace, `/`, `<`, `>`, `=` or `"`, and `v` holds no `"` and no `>`,
/// the one event is the element opened with `k` mapped to `v`.
pub proof fn lemma_quoted_value_kept(w: Seq<char>, k: Seq<char>, v: Seq<char>)
    requires
        name_for(fold_text(w)) is Some,
        is_bare_word(k),
        forall|i: int| 0 <= i < v.len() ==> #[trigger] v[i] != '"' && v[i] != '>',
    ensures
        events_of(quoted_attribute_tag(w, k, v)) == seq![
            EventModel::Opened(
                ElementModel {
                    name: name_for(fold_text(w))->0,
                    attributes: Map::<Seq<char>, Seq<char>>::empty().insert(k, v),
                },
            ),
        ],
{
    let e = Seq::<EventModel>::empty();
    let init = initial_lex();
    let n = name_for(fold_text(w))->0;
    let eq_quote = seq!['=', '"'];
    let x3 = seq!['<'] + w + seq![' '];
    let x4 = x3 + k;
    let x5 = x4 + eq_quote;
    let x6 = x5 + v;
    let x7 = x6 + seq!['"'];
    let x8 = x7 + seq!['>'];
    assert(x8 == quoted_attribute_tag(w, k, v));
    lemma_tag_head(w);
    let r3 = LexState { current: Some(n), text: seq![' '], inside: true, ..init };
    // the attribute name, `=` and the opening quote
    lemma_run_from_concat(init, x3, k);
    lemma_run_plain(r3, k);
    let r4 = LexState { text: seq![' '] + k, ..r3 };
    assert(run_from(init, x4).1 =~= e);
    lemma_run_from_concat(init, x4, eq_quote);
    assert(is_plain(eq_quote[0]) && is_plain(eq_quote[1]));
    assert(forall|i: int| 0 <= i < eq_quote.len() ==> is_plain(#[trigger] eq_quote[i]));
    lemma_run_plain(r4, eq_quote);
    let head = seq![' '] + k + eq_quote;
    let r5 = LexState { text: head, ..r3 };
    assert(run_from(init, x5).0 == r5);
    assert(run_from(init, x5).1 =~= e);
    // the value
    lemma_count_quotes_none(seq![' '] + k);
    assert(eq_quote.drop_last() =~= seq!['=']);
    lemma_count_quotes_none(seq!['=']);
    assert(count_quotes(eq_quote) == 1);
    lemma_count_quotes_concat(seq![' '] + k, eq_quote);
    let m = k.len() as int + 1;
    assert(head[m] == '=');
    lemma_run_from_concat(init, x5, v);
    lemma_run_quoted_body(r5, v, m);
    let r6 = LexState { text: head + v, ..r3 };
    assert(run_from(init, x6).0 == r6);
    assert(run_from(init, x6).1 =~= e);
    // the closing quote
    lemma_run_from_concat(init, x6, seq!['"']);
    lemma_run_single(r6, '"');
    let t = (head + v).push('"');
    let r7 = LexState { text: t, ..r3 };
    assert(run_from(init, x7).0 == r7);
    assert(run_from(init, x7).1 =~= e);
    // `>`: the attribute is finished and the element opened
    lemma_count_quotes_none(v);
    lemma_count_quotes_concat(head, v);
    assert(t.drop_last() =~= head + v);
    assert(count_quotes(t) == 2);
    assert forall|j: int| 0 <= j < m implies #[trigger] t[j] != '=' by {
        if j > 0 {
            assert(t[j] == k[j - 1]);
        }
    }
    lemma_first_eq_at(t, 0, m);
    assert(t.subrange(0, m) =~= seq![' '] + k);
    lemma_trim_after_space(k);
    assert(attr_name_of(t) == k);
    assert(raw_value_of(t) =~= seq!['"'] + v + seq!['"']);
    assert(unquote(raw_value_of(t)) =~= v);
    lemma_run_from_concat(init, x7, seq!['>']);
    lemma_run_single(r7, '>');
    assert(run_from(init, x8).1 =~= seq![
        EventModel::Opened(
            ElementModel {
                name: n,
                attributes: Map::<Seq<char>, Seq<char>>::empty().insert(k, v),
            },
        ),
    ]);
}

/// The tag `<w k=a b>`.
pub open spec fn unquoted_attribute_tag(w: Seq<char>, k: Seq<char>, a: Seq<char>, b: Seq<char>) -> Seq<char> {
    seq!['<'] + w + seq![' '] + k + seq!['='] + a + seq![' '] + b + seq!['>']
}

/// A word that can stand as an attribute name or an unquoted value.
pub open spec fn is_bare_word(k: Seq<char>) -> bool {
    &&& k.len() > 0
    &&& forall|i: int| 0 <= i < k.len() ==> is_plain(#[trigger] k[i]) && k[i] != '=' && k[i] != '"'
}

/// Without quotes a value ends at whitespace. In the tag `<w k=a b>`, where
/// `w` is a recognized name and `k`, `a`, `b` are words without whitespace,
/// `/`, `<`, `>`, `=` or `"`, the value of `k` is `a` alone, and `b` becomes
/// an attribute of its own with an empty value.
pub proof fn lemma_unquoted_value_split(w: Seq<char>, k: Seq<char>, a: Seq<char>, b: Seq<char>)
    requires
        name_for(fold_text(w)) is Some,
        is_bare_word(k),
        is_bare_word(a),
        is_bare_word(b),
    ensures
        events_of(unquoted_attribute_tag(w, k, a, b)) == seq![
            EventModel::Opened(
                ElementModel {
                    name: name_for(fold_text(w))->0,
                    attributes: Map::<Seq<char>, Seq<char>>::empty().insert(k, a).insert(
                        b,
                        Seq::empty(),
                    ),
                },
            ),
        ],
{
    let e = Seq::<EventModel>::empty();
    let init = initial_lex();
    let n = name_for(fold_text(w))->0;
    let x3 = seq!['<'] + w + seq![' '];
    let x4 = x3 + k;
    let x5 = x4 + seq!['='];
    let x6 = x5 + a;
    let x7 = x6 + seq![' '];
    let x8 = x7 + b;
    let x9 = x8 + seq!['>'];
    assert(x9 == unquoted_attribute_tag(w, k, a, b));
    lemma_tag_head(w);
    let r3 = LexState { current: Some(n), text: seq![' '], inside: true, ..init };
    // `k=a`
    lemma_run_from_concat(init, x3, k);
    lemma_run_plain(r3, k);
    lemma_run_from_concat(init, x4, seq!['=']);
    lemma_run_single(LexState { text: seq![' '] + k, ..r3 }, '=');
    lemma_run_from_concat(init, x5, a);
    let head = (seq![' '] + k).push('=');
    lemma_run_plain(LexState { text: head, ..r3 }, a);
    let t1 = head + a;
    let r6 = LexState { text: t1, ..r3 };
    assert(run_from(init, x6).0 == r6);
    assert(run_from(init, x6).1 =~= e);
    // the space ends the attribute `k=a`
    lemma_count_quotes_none(t1);
    let m = k.len() as int + 1;
    assert forall|j: int| 0 <= j < m implies #[trigger] t1[j] != '=' by {
        if j > 0 {
            assert(t1[j] == k[j - 1]);
        }
    }
    lemma_first_eq_at(t1, 0, m);
    assert(t1.subrange(0, m) =~= seq![' '] + k);
    lemma_trim_after_space(k);
    assert(raw_value_of(t1) =~= a);
    assert(a[0] != '"' && a[a.len() - 1] != '"');
    assert(unquote(a) == a);
    lemma_run_from_concat(init, x6, seq![' ']);
    lemma_run_single(r6, ' ');
    let attrs1 = Map::<Seq<char>, Seq<char>>::empty().insert(k, a);
    let r7 = LexState { text: seq![' '], attrs: attrs1, ..r3 };
    assert(run_from(init, x7).0 == r7);
    assert(run_from(init, x7).1 =~= e);
    // `b`, then `>`
    lemma_run_from_concat(init, x7, b);
    lemma_run_plain(r7, b);
    let t2 = seq![' '] + b;
    let r8 = LexState { text: t2, ..r7 };
    assert(run_from(init, x8).0 == r8);
    assert(run_from(init, x8).1 =~= e);
    lemma_count_quotes_none(t2);
    assert forall|j: int| 0 <= j < t2.len() implies #[trigger] t2[j] != '=' by {
        if j > 0 {
            assert(t2[j] == b[j - 1]);
        }
    }
    lemma_first_eq_none(t2, 0);
    assert(t2.subrange(0, t2.len() as int) =~= t2);
    lemma_trim_after_space(b);
    assert(unquote(raw_value_of(t2)) =~= Seq::<char>::empty());
    lemma_run_from_concat(init, x8, seq!['>']);
    lemma_run_single(r8, '>');
    assert(run_from(init, x9).1 =~= seq![
        EventModel::Opened(
            ElementModel { name: n, attributes: attrs1.insert(b, Seq::empty()) },
        ),
    ]);
}

proof fn lemma_first_eq_none(s: Seq<char>, i: int)
    requires
        0 <= i <= s.len(),
        forall|j: int| i <= j < s.len() ==> #[trigger] s[j] != '=',
    ensures
        first_eq_from(s, i) == s.len(),
    decreases s.len() - i,
{
    if i < s.len() {
        lemma_first_eq_none(s, i + 1);
    }
}

/// Reading on never changes what was produced: the events of the first
/// bytes of a document are the first events of the whole.
pub proof fn lemma_events_only_grow(a: Seq<u8>, b: Seq<u8>)
    requires
        a.is_prefix_of(b),
    ensures
        events_of(decode(a).0).is_prefix_of(events_of(decode(b).0)),
{
    let rest = b.subrange(a.len() as int, b.len() as int);
    assert(b =~= a + rest);
    lemma_decode_concat(a, rest);
    let x = decode(decode(a).1 + rest).0;
    lemma_run_from_concat(initial_lex(), decode(a).0, x);
    let ea = events_of(decode(a).0);
    let eb = events_of(decode(b).0);
    assert(eb.subrange(0, ea.len() as int) =~= ea);
}

/// A `/` at position `i` of the body of a raw-text element ends the body:
/// the text before it, whitespace aside, ends with `<`.
pub open spec fn raw_text_ends_at(body: Seq<char>, i: int) -> bool {
    let before = trim(body.subrange(0, i));
    body[i] == '/' && before.len() > 0 && before.last() == '<'
}

/// The text `<w>body</w>`.
pub open spec fn raw_element_text(w: Seq<char>, body: Seq<char>) -> Seq<char> {
    tag_text(Tag { closing: false, written: w }) + body + seq!['<', '/'] + w + seq!['>']
}

proof fn lemma_run_raw_body(s: LexState, body: Seq<char>)
    requires
        !s.inside,
        s.current is None,
        top_is_raw(s),
        s.text.len() == 0,
        forall|i: int| 0 <= i < body.len() ==> !raw_text_ends_at(body, i),
    ensures
        run_from(s, body).0 == (LexState { text: body, ..s }),
        run_from(s, body).1 == Seq::<EventModel>::empty(),
    decreases body.len(),
{
    if body.len() == 0 {
        assert(s.text =~= body);
    } else {
        let d = body.drop_last();
        assert forall|i: int| 0 <= i < d.len() implies !raw_text_ends_at(d, i) by {
            assert(d.subrange(0, i) =~= body.subrange(0, i));
            assert(!raw_text_ends_at(body, i));
        }
        lemma_run_raw_body(s, d);
        assert(body.subrange(0, d.len() as int) =~= d);
        assert(!raw_text_ends_at(body, d.len() as int));
        assert(d.push(body.last()) =~= body);
        assert(Seq::<EventModel>::empty() + Seq::<EventModel>::empty() =~= Seq::<EventModel>::empty());
    }
}

/// The body of a raw-text element is one text event, `<` characters and
/// all. In `<w>body</w>`, where `w` names a raw-text element (script or
/// style) and `body` is not empty, has no whitespace at either end and holds
/// no `/` that follows a `<` with only whitespace between, the events are
/// the element opened, the body as one text, and the element closed.
pub proof fn lemma_raw_text_body(w: Seq<char>, body: Seq<char>)
    requires
        name_for(fold_text(w)) matches Some(n) && is_raw_text(n),
        is_trimmed_text(body),
        forall|i: int| 0 <= i < body.len() ==> !raw_text_ends_at(body, i),
    ensures
        ({
            let el = ElementModel {
                name: name_for(fold_text(w))->0,
                attributes: Map::<Seq<char>, Seq<char>>::empty(),
            };
            events_of(raw_element_text(w, body)) == seq![
                EventModel::Opened(el),
                EventModel::Text(body),
                EventModel::Closed(el),
            ]
        }),
{
    let e = Seq::<EventModel>::empty();
    let init = initial_lex();
    let n = name_for(fold_text(w))->0;
    let el = ElementModel { name: n, attributes: Map::<Seq<char>, Seq<char>>::empty() };
    let t0 = Tag { closing: false, written: w };
    assert(init.text =~= Seq::<char>::empty());
    lemma_empty_trim();
    lemma_recognized_plain(w);
    let x1 = tag_text(t0);
    let x2 = x1 + body;
    let x3 = x2 + seq!['<'];
    let x4 = x3 + seq!['/'];
    let x5 = x4 + w;
    let x6 = x5 + seq!['>'];
    assert(x6 =~= raw_element_text(w, body));
    // `<w>`
    lemma_one_tag(init, t0);
    let r1 = LexState { stack: seq![el], ..init };
    assert(Seq::<ElementModel>::empty().push(el) =~= seq![el]);
    assert(run_from(init, x1).0 == r1);
    // the body
    lemma_run_from_concat(init, x1, body);
    lemma_run_raw_body(r1, body);
    let r2 = LexState { text: body, ..r1 };
    assert(run_from(init, x2).0 == r2);
    assert(run_from(init, x2).1 =~= seq![EventModel::Opened(el)]);
    // `<` stays in the text
    lemma_run_from_concat(init, x2, seq!['<']);
    lemma_run_single(r2, '<');
    let tb = body.push('<');
    let r3 = LexState { text: tb, ..r1 };
    assert(run_from(init, x3).0 == r3);
    assert(run_from(init, x3).1 =~= seq![EventModel::Opened(el)]);
    // `/` ends the body
    assert(is_trimmed_text(tb));
    lemma_trim_trimmed(tb);
    lemma_trim_trimmed(body);
    assert(tb.drop_last() =~= body);
    lemma_run_from_concat(init, x3, seq!['/']);
    lemma_run_single(r3, '/');
    let r4 = LexState { text: Seq::empty(), inside: true, closing: true, ..r1 };
    assert(run_from(init, x4).0 == r4);
    assert(run_from(init, x4).1 =~= seq![EventModel::Opened(el), EventModel::Text(body)]);
    // `w>`
    lemma_run_from_concat(init, x4, w);
    lemma_run_plain(r4, w);
    let r5 = LexState { text: w, ..r4 };
    assert(Seq::<char>::empty() + w =~= w);
    assert(run_from(init, x5).0 == r5);
    assert(run_from(init, x5).1 =~= seq![EventModel::Opened(el), EventModel::Text(body)]);
    lemma_run_from_concat(init, x5, seq!['>']);
    lemma_run_single(r5, '>');
    assert(run_from(init, x6).1 =~= seq![
        EventModel::Opened(el),
        EventModel::Text(body),
        EventModel::Closed(el),
    ]);
}

} // verus!
