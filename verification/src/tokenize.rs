//! The tolerant markup tokenizer: a character-at-a-time state machine
//! that never rejects its input, together with the exec helpers on
//! attribute lists and character references.

use vstd::prelude::*;
use crate::chars::{is_space_char, is_space, lower_char, to_lower, eq_chars};
use crate::doc::dup_chars;
use crate::token::{
    is_alpha,
    Attr,
    AttrV,
    MarkToken,
    MarkTokenV,
    view_attrs,
    view_tokens,
    attr_value,
    decode_entities,
    is_ascii_alpha,
    lemma_view_attrs_props,
    lemma_view_tokens_props,
};

verus! {

broadcast use lemma_view_attrs_props, lemma_view_tokens_props;

/// A copy of an attribute list.
pub fn dup_attrs(l: &Vec<Attr>) -> (r: Vec<Attr>)
    ensures
        view_attrs(r@) == view_attrs(l@),
{
    let mut r: Vec<Attr> = Vec::new();
    let mut i: usize = 0;
    while i < l.len()
        invariant
            i <= l@.len(),
            view_attrs(r@) == view_attrs(l@).take(i as int),
        decreases l@.len() - i,
    {
        let a = Attr { name: dup_chars(&l[i].name), value: dup_chars(&l[i].value) };
        let ghost prevr = r@;
        r.push(a);
        proof {
            assert forall|j: int| 0 <= j < r@.len() implies #[trigger] view_attrs(r@)[j]
                == view_attrs(l@).take(i + 1)[j] by {
                assert(view_attrs(r@)[j] == r@[j]@);
                if j < prevr.len() {
                    assert(r@[j] == prevr[j]);
                    assert(view_attrs(prevr)[j] == prevr[j]@);
                } else {
                    assert(r@[j] == a);
                    assert(a@ == l@[i as int]@);
                }
            }
            assert(view_attrs(r@) =~= view_attrs(l@).take(i + 1));
        }
        i += 1;
    }
    proof {
        assert(view_attrs(l@).take(l@.len() as int) =~= view_attrs(l@));
    }
    r
}


/// A copy of the first value carried under `name`, if any.
pub fn find_attr(attrs: &Vec<Attr>, name: &Vec<char>) -> (r: Option<Vec<char>>)
    ensures
        match r {
            Some(v) => attr_value(view_attrs(attrs@), name@) == Some(v@),
            None => attr_value(view_attrs(attrs@), name@) is None,
        },
{
    proof {
        assert(view_attrs(attrs@).skip(0) =~= view_attrs(attrs@));
    }
    let mut i: usize = 0;
    while i < attrs.len()
        invariant
            i <= attrs@.len(),
            attr_value(view_attrs(attrs@), name@) == attr_value(
                view_attrs(attrs@).skip(i as int),
                name@,
            ),
        decreases attrs@.len() - i,
    {
        proof {
            assert(view_attrs(attrs@).skip(i as int)[0] == view_attrs(attrs@)[i as int]);
            assert(view_attrs(attrs@).skip(i as int).drop_first() =~= view_attrs(attrs@).skip(
                i + 1,
            ));
        }
        if crate::chars::eq_chars(&attrs[i].name, name) {
            return Some(dup_chars(&attrs[i].value));
        }
        i += 1;
    }
    proof {
        assert(view_attrs(attrs@).skip(attrs@.len() as int) =~= Seq::<AttrV>::empty());
    }
    None
}


fn is_ref_at(v: &Vec<char>, i: usize, p0: char, p1: char, p2: char) -> (r: bool)
    requires
        i < v@.len(),
    ensures
        r == (i + 4 <= v@.len() && v@.subrange(i + 1, i + 4) == seq![p0, p1, p2]),
{
    if v.len() - i < 4 {
        return false;
    }
    let r = v[i + 1] == p0 && v[i + 2] == p1 && v[i + 3] == p2;
    proof {
        if r {
            assert(v@.subrange(i + 1, i + 4) =~= seq![p0, p1, p2]);
        } else {
            if v@.subrange(i + 1, i + 4) == seq![p0, p1, p2] {
                assert(v@.subrange(i + 1, i + 4)[0] == v@[i + 1]);
                assert(v@.subrange(i + 1, i + 4)[1] == v@[i + 2]);
                assert(v@.subrange(i + 1, i + 4)[2] == v@[i + 3]);
            }
        }
    }
    r
}

fn is_ref4_at(v: &Vec<char>, i: usize, p0: char, p1: char, p2: char, p3: char) -> (r: bool)
    requires
        i < v@.len(),
    ensures
        r == (i + 5 <= v@.len() && v@.subrange(i + 1, i + 5) == seq![p0, p1, p2, p3]),
{
    if v.len() - i < 5 {
        return false;
    }
    let r = v[i + 1] == p0 && v[i + 2] == p1 && v[i + 3] == p2 && v[i + 4] == p3;
    proof {
        if r {
            assert(v@.subrange(i + 1, i + 5) =~= seq![p0, p1, p2, p3]);
        } else {
            if v@.subrange(i + 1, i + 5) == seq![p0, p1, p2, p3] {
                assert(v@.subrange(i + 1, i + 5)[0] == v@[i + 1]);
                assert(v@.subrange(i + 1, i + 5)[1] == v@[i + 2]);
                assert(v@.subrange(i + 1, i + 5)[2] == v@[i + 3]);
                assert(v@.subrange(i + 1, i + 5)[3] == v@[i + 4]);
            }
        }
    }
    r
}

fn is_ref5_at(v: &Vec<char>, i: usize, p0: char, p1: char, p2: char, p3: char, p4: char) -> (r:
    bool)
    requires
        i < v@.len(),
    ensures
        r == (i + 6 <= v@.len() && v@.subrange(i + 1, i + 6) == seq![p0, p1, p2, p3, p4]),
{
    if v.len() - i < 6 {
        return false;
    }
    let r = v[i + 1] == p0 && v[i + 2] == p1 && v[i + 3] == p2 && v[i + 4] == p3 && v[i + 5] == p4;
    proof {
        if r {
            assert(v@.subrange(i + 1, i + 6) =~= seq![p0, p1, p2, p3, p4]);
        } else {
            if v@.subrange(i + 1, i + 6) == seq![p0, p1, p2, p3, p4] {
                assert(v@.subrange(i + 1, i + 6)[0] == v@[i + 1]);
                assert(v@.subrange(i + 1, i + 6)[1] == v@[i + 2]);
                assert(v@.subrange(i + 1, i + 6)[2] == v@[i + 3]);
                assert(v@.subrange(i + 1, i + 6)[3] == v@[i + 4]);
                assert(v@.subrange(i + 1, i + 6)[4] == v@[i + 5]);
            }
        }
    }
    r
}

/// A copy of `v` with its character references decoded.
pub fn decode_entities_exec(v: &Vec<char>) -> (r: Vec<char>)
    ensures
        r@ == decode_entities(v@),
{
    let len = v.len();
    let mut r: Vec<char> = Vec::new();
    proof {
        assert(v@.skip(0) =~= v@);
        assert(r@ + decode_entities(v@) =~= decode_entities(v@));
    }
    let mut i: usize = 0;
    while i < len
        invariant
            i <= len == v@.len(),
            r@ + decode_entities(v@.skip(i as int)) == decode_entities(v@),
        decreases len - i,
    {
        let ghost suf = v@.skip(i as int);
        proof {
            assert(suf[0] == v@[i as int]);
        }
        let c = v[i];
        if c == '&' {
            if is_ref4_at(v, i, 'a', 'm', 'p', ';') {
                r.push('&');
                proof {
                    assert(suf.len() >= 5 && suf.subrange(1, 5) =~= v@.subrange(i + 1, i + 5));
                    assert(suf.skip(5) =~= v@.skip(i + 5));
                    assert(r@ + decode_entities(v@.skip(i + 5)) =~= decode_entities(v@));
                }
                i += 5;
            } else if is_ref_at(v, i, 'l', 't', ';') {
                r.push('<');
                proof {
                    assert(suf.len() >= 4 && suf.subrange(1, 4) =~= v@.subrange(i + 1, i + 4));
                    if suf.len() >= 5 {
                        assert(suf.subrange(1, 5) =~= v@.subrange(i + 1, i + 5));
                    }
                    assert(suf.skip(4) =~= v@.skip(i + 4));
                    assert(r@ + decode_entities(v@.skip(i + 4)) =~= decode_entities(v@));
                }
                i += 4;
            } else if is_ref_at(v, i, 'g', 't', ';') {
                r.push('>');
                proof {
                    assert(suf.len() >= 4 && suf.subrange(1, 4) =~= v@.subrange(i + 1, i + 4));
                    if suf.len() >= 5 {
                        assert(suf.subrange(1, 5) =~= v@.subrange(i + 1, i + 5));
                    }
                    assert(suf.skip(4) =~= v@.skip(i + 4));
                    assert(r@ + decode_entities(v@.skip(i + 4)) =~= decode_entities(v@));
                }
                i += 4;
            } else if is_ref5_at(v, i, 'q', 'u', 'o', 't', ';') {
                r.push('"');
                proof {
                    assert(suf.len() >= 6 && suf.subrange(1, 6) =~= v@.subrange(i + 1, i + 6));
                    if suf.len() >= 5 {
                        assert(suf.subrange(1, 5) =~= v@.subrange(i + 1, i + 5));
                    }
                    assert(suf.subrange(1, 4) =~= v@.subrange(i + 1, i + 4));
                    assert(suf.skip(6) =~= v@.skip(i + 6));
                    assert(r@ + decode_entities(v@.skip(i + 6)) =~= decode_entities(v@));
                }
                i += 6;
            } else {
                r.push('&');
                proof {
                    if suf.len() >= 5 {
                        assert(suf.subrange(1, 5) =~= v@.subrange(i + 1, i + 5));
                    }
                    if suf.len() >= 4 {
                        assert(suf.subrange(1, 4) =~= v@.subrange(i + 1, i + 4));
                    }
                    if suf.len() >= 6 {
                        assert(suf.subrange(1, 6) =~= v@.subrange(i + 1, i + 6));
                    }
                    assert(suf.skip(1) =~= v@.skip(i + 1));
                    assert(r@ + decode_entities(v@.skip(i + 1)) =~= decode_entities(v@));
                }
                i += 1;
            }
        } else {
            r.push(c);
            proof {
                assert(suf.skip(1) =~= v@.skip(i + 1));
                assert(r@ + decode_entities(v@.skip(i + 1)) =~= decode_entities(v@));
            }
            i += 1;
        }
    }
    proof {
        assert(v@.skip(len as int) =~= Seq::<char>::empty());
        assert(r@ =~= decode_entities(v@));
    }
    r
}



// ── The tokenizer state machine ────────────────────────────────────

/// The tokenizer's mode between two characters.
pub enum TokMode {
    Data,
    TagOpen,
    TagName,
    EndTagOpen,
    EndTagName,
    EndTagRest,
    BeforeAttrName,
    AttrName,
    AfterAttrName,
    BeforeAttrValue,
    AttrValDq,
    AttrValSq,
    AttrValUnq,
    SelfClosing,
    Bogus,
}

/// The whole tokenizer state: mode, the buffers being accumulated, and
/// the tokens already produced.
#[verifier::ext_equal]
pub struct TokStateV {
    pub mode: TokMode,
    pub text_buf: Seq<char>,
    pub name_buf: Seq<char>,
    pub attrs: Seq<AttrV>,
    pub attr_name: Seq<char>,
    pub attr_val: Seq<char>,
    pub tokens: Seq<MarkTokenV>,
}

/// Flushing the pending text as one token, references decoded.
pub open spec fn stv_flush_text(st: TokStateV) -> TokStateV {
    if st.text_buf.len() > 0 {
        TokStateV {
            tokens: st.tokens.push(MarkTokenV::Text(decode_entities(st.text_buf))),
            text_buf: Seq::empty(),
            ..st
        }
    } else {
        st
    }
}

/// Completing the attribute in progress, its value decoded.
pub open spec fn stv_push_attr(st: TokStateV) -> TokStateV {
    TokStateV {
        attrs: st.attrs.push(AttrV { name: st.attr_name, value: decode_entities(st.attr_val) }),
        attr_name: Seq::empty(),
        attr_val: Seq::empty(),
        ..st
    }
}

/// Emitting the collected start tag.
pub open spec fn stv_emit_open(st: TokStateV) -> TokStateV {
    TokStateV {
        tokens: st.tokens.push(MarkTokenV::Open(st.name_buf, st.attrs)),
        name_buf: Seq::empty(),
        attrs: Seq::empty(),
        mode: TokMode::Data,
        ..st
    }
}

/// Emitting the collected end tag.
pub open spec fn stv_emit_close(st: TokStateV) -> TokStateV {
    TokStateV {
        tokens: st.tokens.push(MarkTokenV::Close(st.name_buf)),
        name_buf: Seq::empty(),
        mode: TokMode::Data,
        ..st
    }
}

/// One step of the tolerant tokenizer.  Tag and attribute names are
/// lower-cased as they are read; a `<` that begins no tag stays literal
/// text; `<!`, `<?` and stray end-tag junk are skipped to the next `>`;
/// a self-closing slash simply ends the start tag.
pub open spec fn tok_step(st: TokStateV, c: char) -> TokStateV {
    match st.mode {
        TokMode::Data => if c == '<' {
            TokStateV { mode: TokMode::TagOpen, ..st }
        } else {
            TokStateV { text_buf: st.text_buf.push(c), ..st }
        },
        TokMode::TagOpen => if c == '/' {
            TokStateV { mode: TokMode::EndTagOpen, ..st }
        } else if is_ascii_alpha(c) {
            let f = stv_flush_text(st);
            TokStateV {
                mode: TokMode::TagName,
                name_buf: seq![lower_char(c)],
                attrs: Seq::empty(),
                ..f
            }
        } else if c == '!' || c == '?' {
            let f = stv_flush_text(st);
            TokStateV { mode: TokMode::Bogus, ..f }
        } else if c == '<' {
            TokStateV { text_buf: st.text_buf.push('<'), ..st }
        } else {
            TokStateV { mode: TokMode::Data, text_buf: st.text_buf.push('<').push(c), ..st }
        },
        TokMode::EndTagOpen => if is_ascii_alpha(c) {
            let f = stv_flush_text(st);
            TokStateV { mode: TokMode::EndTagName, name_buf: seq![lower_char(c)], ..f }
        } else if c == '>' {
            TokStateV { mode: TokMode::Data, ..st }
        } else {
            let f = stv_flush_text(st);
            TokStateV { mode: TokMode::Bogus, ..f }
        },
        TokMode::TagName => if is_space_char(c) {
            TokStateV { mode: TokMode::BeforeAttrName, ..st }
        } else if c == '/' {
            TokStateV { mode: TokMode::SelfClosing, ..st }
        } else if c == '>' {
            stv_emit_open(st)
        } else {
            TokStateV { name_buf: st.name_buf.push(lower_char(c)), ..st }
        },
        TokMode::BeforeAttrName => if is_space_char(c) {
            st
        } else if c == '/' {
            TokStateV { mode: TokMode::SelfClosing, ..st }
        } else if c == '>' {
            stv_emit_open(st)
        } else {
            TokStateV {
                mode: TokMode::AttrName,
                attr_name: seq![lower_char(c)],
                attr_val: Seq::empty(),
                ..st
            }
        },
        TokMode::AttrName => if c == '=' {
            TokStateV { mode: TokMode::BeforeAttrValue, ..st }
        } else if is_space_char(c) {
            TokStateV { mode: TokMode::AfterAttrName, ..st }
        } else if c == '/' {
            let p = stv_push_attr(st);
            TokStateV { mode: TokMode::SelfClosing, ..p }
        } else if c == '>' {
            stv_emit_open(stv_push_attr(st))
        } else {
            TokStateV { attr_name: st.attr_name.push(lower_char(c)), ..st }
        },
        TokMode::AfterAttrName => if is_space_char(c) {
            st
        } else if c == '=' {
            TokStateV { mode: TokMode::BeforeAttrValue, ..st }
        } else if c == '/' {
            let p = stv_push_attr(st);
            TokStateV { mode: TokMode::SelfClosing, ..p }
        } else if c == '>' {
            stv_emit_open(stv_push_attr(st))
        } else {
            let p = stv_push_attr(st);
            TokStateV {
                mode: TokMode::AttrName,
                attr_name: seq![lower_char(c)],
                attr_val: Seq::empty(),
                ..p
            }
        },
        TokMode::BeforeAttrValue => if is_space_char(c) {
            st
        } else if c == '"' {
            TokStateV { mode: TokMode::AttrValDq, ..st }
        } else if c == '\'' {
            TokStateV { mode: TokMode::AttrValSq, ..st }
        } else if c == '>' {
            stv_emit_open(stv_push_attr(st))
        } else {
            TokStateV { mode: TokMode::AttrValUnq, attr_val: seq![c], ..st }
        },
        TokMode::AttrValDq => if c == '"' {
            let p = stv_push_attr(st);
            TokStateV { mode: TokMode::BeforeAttrName, ..p }
        } else {
            TokStateV { attr_val: st.attr_val.push(c), ..st }
        },
        TokMode::AttrValSq => if c == '\'' {
            let p = stv_push_attr(st);
            TokStateV { mode: TokMode::BeforeAttrName, ..p }
        } else {
            TokStateV { attr_val: st.attr_val.push(c), ..st }
        },
        TokMode::AttrValUnq => if is_space_char(c) {
            let p = stv_push_attr(st);
            TokStateV { mode: TokMode::BeforeAttrName, ..p }
        } else if c == '>' {
            stv_emit_open(stv_push_attr(st))
        } else {
            TokStateV { attr_val: st.attr_val.push(c), ..st }
        },
        TokMode::SelfClosing => if c == '>' {
            stv_emit_open(st)
        } else if is_space_char(c) {
            TokStateV { mode: TokMode::BeforeAttrName, ..st }
        } else if c == '/' {
            st
        } else {
            TokStateV {
                mode: TokMode::AttrName,
                attr_name: seq![lower_char(c)],
                attr_val: Seq::empty(),
                ..st
            }
        },
        TokMode::EndTagName => if c == '>' {
            stv_emit_close(st)
        } else if is_space_char(c) {
            TokStateV { mode: TokMode::EndTagRest, ..st }
        } else {
            TokStateV { name_buf: st.name_buf.push(lower_char(c)), ..st }
        },
        TokMode::EndTagRest => if c == '>' {
            stv_emit_close(st)
        } else {
            st
        },
        TokMode::Bogus => if c == '>' {
            TokStateV { mode: TokMode::Data, ..st }
        } else {
            st
        },
    }
}

pub open spec fn init_tok_state() -> TokStateV {
    TokStateV {
        mode: TokMode::Data,
        text_buf: Seq::empty(),
        name_buf: Seq::empty(),
        attrs: Seq::empty(),
        attr_name: Seq::empty(),
        attr_val: Seq::empty(),
        tokens: Seq::empty(),
    }
}

/// The state after consuming all of `s`.
pub open spec fn tok_run(st: TokStateV, s: Seq<char>) -> TokStateV
    decreases s.len(),
{
    if s.len() == 0 {
        st
    } else {
        tok_run(tok_step(st, s[0]), s.skip(1))
    }
}

/// End of input: a dangling `<` or `</` becomes literal text, pending
/// text is flushed, and an unfinished tag is discarded.
pub open spec fn tok_finish(st: TokStateV) -> Seq<MarkTokenV> {
    let st1 = if st.mode is TagOpen {
        TokStateV { text_buf: st.text_buf.push('<'), ..st }
    } else if st.mode is EndTagOpen {
        TokStateV { text_buf: st.text_buf.push('<').push('/'), ..st }
    } else {
        st
    };
    stv_flush_text(st1).tokens
}

/// The token stream of a markup text.
pub open spec fn tokenize_spec(s: Seq<char>) -> Seq<MarkTokenV> {
    tok_finish(tok_run(init_tok_state(), s))
}

/// The executable tokenizer.
pub struct Tokenizer {
    mode: TokMode,
    text_buf: Vec<char>,
    name_buf: Vec<char>,
    attrs: Vec<Attr>,
    attr_name: Vec<char>,
    attr_val: Vec<char>,
    tokens: Vec<MarkToken>,
}

impl View for Tokenizer {
    type V = TokStateV;

    closed spec fn view(&self) -> TokStateV {
        TokStateV {
            mode: self.mode,
            text_buf: self.text_buf@,
            name_buf: self.name_buf@,
            attrs: view_attrs(self.attrs@),
            attr_name: self.attr_name@,
            attr_val: self.attr_val@,
            tokens: view_tokens(self.tokens@),
        }
    }
}

impl Tokenizer {
    fn new() -> (r: Tokenizer)
        ensures
            r@ == init_tok_state(),
    {
        let r = Tokenizer {
            mode: TokMode::Data,
            text_buf: Vec::new(),
            name_buf: Vec::new(),
            attrs: Vec::new(),
            attr_name: Vec::new(),
            attr_val: Vec::new(),
            tokens: Vec::new(),
        };
        proof {
            assert(view_attrs(r.attrs@) =~= Seq::<AttrV>::empty());
            assert(view_tokens(r.tokens@) =~= Seq::<MarkTokenV>::empty());
            assert(r@ =~= init_tok_state());
        }
        r
    }

    fn flush_text(&mut self)
        ensures
            final(self)@ == stv_flush_text(old(self)@),
    {
        if self.text_buf.len() > 0 {
            let decoded = decode_entities_exec(&self.text_buf);
            self.text_buf.clear();
            self.tokens.push(MarkToken::Text(decoded));
            proof {
                assert(view_tokens(self.tokens@) =~= old(self)@.tokens.push(
                    MarkTokenV::Text(decode_entities(old(self)@.text_buf)),
                ));
                assert(self@ =~= stv_flush_text(old(self)@));
            }
        }
    }

    fn push_attr(&mut self)
        ensures
            final(self)@ == stv_push_attr(old(self)@),
    {
        let name = dup_chars(&self.attr_name);
        let value = decode_entities_exec(&self.attr_val);
        self.attr_name.clear();
        self.attr_val.clear();
        self.attrs.push(Attr { name, value });
        proof {
            assert(view_attrs(self.attrs@) =~= old(self)@.attrs.push(
                AttrV { name: old(self)@.attr_name, value: decode_entities(old(self)@.attr_val) },
            ));
            assert(self@ =~= stv_push_attr(old(self)@));
        }
    }

    fn emit_open(&mut self)
        ensures
            final(self)@ == stv_emit_open(old(self)@),
    {
        let name = dup_chars(&self.name_buf);
        let attrs = dup_attrs(&self.attrs);
        self.name_buf.clear();
        self.attrs.clear();
        self.mode = TokMode::Data;
        self.tokens.push(MarkToken::Open(name, attrs));
        proof {
            assert(view_attrs(self.attrs@) =~= Seq::<AttrV>::empty());
            assert(view_tokens(self.tokens@) =~= old(self)@.tokens.push(
                MarkTokenV::Open(old(self)@.name_buf, old(self)@.attrs),
            ));
            assert(self@ =~= stv_emit_open(old(self)@));
        }
    }

    fn emit_close(&mut self)
        ensures
            final(self)@ == stv_emit_close(old(self)@),
    {
        let name = dup_chars(&self.name_buf);
        self.name_buf.clear();
        self.mode = TokMode::Data;
        self.tokens.push(MarkToken::Close(name));
        proof {
            assert(view_tokens(self.tokens@) =~= old(self)@.tokens.push(
                MarkTokenV::Close(old(self)@.name_buf),
            ));
            assert(self@ =~= stv_emit_close(old(self)@));
        }
    }

    fn start_name(&mut self, c: char)
        ensures
            final(self)@ == (TokStateV { name_buf: seq![lower_char(c)], ..old(self)@ }),
    {
        let mut nb: Vec<char> = Vec::new();
        nb.push(to_lower(c));
        self.name_buf = nb;
        proof {
            assert(self@.name_buf =~= seq![lower_char(c)]);
            assert(self@ =~= (TokStateV { name_buf: seq![lower_char(c)], ..old(self)@ }));
        }
    }

    fn start_attr(&mut self, c: char)
        ensures
            final(self)@ == (TokStateV {
                attr_name: seq![lower_char(c)],
                attr_val: Seq::empty(),
                ..old(self)@
            }),
    {
        let mut nb: Vec<char> = Vec::new();
        nb.push(to_lower(c));
        self.attr_name = nb;
        self.attr_val.clear();
        proof {
            assert(self@.attr_name =~= seq![lower_char(c)]);
            assert(self@.attr_val =~= Seq::<char>::empty());
            assert(self@ =~= (TokStateV {
                attr_name: seq![lower_char(c)],
                attr_val: Seq::empty(),
                ..old(self)@
            }));
        }
    }

    fn step(&mut self, c: char)
        ensures
            final(self)@ == tok_step(old(self)@, c),
    {
        match self.mode {
            TokMode::Data => {
                if c == '<' {
                    self.mode = TokMode::TagOpen;
                } else {
                    self.text_buf.push(c);
                }
                proof {
                    assert(self@ =~= tok_step(old(self)@, c));
                }
            },
            TokMode::TagOpen => {
                if c == '/' {
                    self.mode = TokMode::EndTagOpen;
                } else if is_alpha(c) {
                    self.flush_text();
                    self.start_name(c);
                    self.attrs.clear();
                    self.mode = TokMode::TagName;
                    proof {
                        assert(view_attrs(self.attrs@) =~= Seq::<AttrV>::empty());
                    }
                } else if c == '!' || c == '?' {
                    self.flush_text();
                    self.mode = TokMode::Bogus;
                } else if c == '<' {
                    self.text_buf.push('<');
                } else {
                    self.text_buf.push('<');
                    self.text_buf.push(c);
                    self.mode = TokMode::Data;
                }
                proof {
                    assert(self@ =~= tok_step(old(self)@, c));
                }
            },
            TokMode::EndTagOpen => {
                if is_alpha(c) {
                    self.flush_text();
                    self.start_name(c);
                    self.mode = TokMode::EndTagName;
                } else if c == '>' {
                    self.mode = TokMode::Data;
                } else {
                    self.flush_text();
                    self.mode = TokMode::Bogus;
                }
                proof {
                    assert(self@ =~= tok_step(old(self)@, c));
                }
            },
            TokMode::TagName => {
                if is_space(c) {
                    self.mode = TokMode::BeforeAttrName;
                } else if c == '/' {
                    self.mode = TokMode::SelfClosing;
                } else if c == '>' {
                    self.emit_open();
                } else {
                    self.name_buf.push(to_lower(c));
                }
                proof {
                    assert(self@ =~= tok_step(old(self)@, c));
                }
            },
            TokMode::BeforeAttrName => {
                if is_space(c) {
                } else if c == '/' {
                    self.mode = TokMode::SelfClosing;
                } else if c == '>' {
                    self.emit_open();
                } else {
                    self.start_attr(c);
                    self.mode = TokMode::AttrName;
                }
                proof {
                    assert(self@ =~= tok_step(old(self)@, c));
                }
            },
            TokMode::AttrName => {
                if c == '=' {
                    self.mode = TokMode::BeforeAttrValue;
                } else if is_space(c) {
                    self.mode = TokMode::AfterAttrName;
                } else if c == '/' {
                    self.push_attr();
                    self.mode = TokMode::SelfClosing;
                } else if c == '>' {
                    self.push_attr();
                    self.emit_open();
                } else {
                    self.attr_name.push(to_lower(c));
                }
                proof {
                    assert(self@ =~= tok_step(old(self)@, c));
                }
            },
            TokMode::AfterAttrName => {
                if is_space(c) {
                } else if c == '=' {
                    self.mode = TokMode::BeforeAttrValue;
                } else if c == '/' {
                    self.push_attr();
                    self.mode = TokMode::SelfClosing;
                } else if c == '>' {
                    self.push_attr();
                    self.emit_open();
                } else {
                    self.push_attr();
                    self.start_attr(c);
                    self.mode = TokMode::AttrName;
                }
                proof {
                    assert(self@ =~= tok_step(old(self)@, c));
                }
            },
            TokMode::BeforeAttrValue => {
                if is_space(c) {
                } else if c == '"' {
                    self.mode = TokMode::AttrValDq;
                } else if c == '\'' {
                    self.mode = TokMode::AttrValSq;
                } else if c == '>' {
                    self.push_attr();
                    self.emit_open();
                } else {
                    let mut av: Vec<char> = Vec::new();
                    av.push(c);
                    self.attr_val = av;
                    self.mode = TokMode::AttrValUnq;
                    proof {
                        assert(self@.attr_val =~= seq![c]);
                    }
                }
                proof {
                    assert(self@ =~= tok_step(old(self)@, c));
                }
            },
            TokMode::AttrValDq => {
                if c == '"' {
                    self.push_attr();
                    self.mode = TokMode::BeforeAttrName;
                } else {
                    self.attr_val.push(c);
                }
                proof {
                    assert(self@ =~= tok_step(old(self)@, c));
                }
            },
            TokMode::AttrValSq => {
                if c == '\'' {
                    self.push_attr();
                    self.mode = TokMode::BeforeAttrName;
                } else {
                    self.attr_val.push(c);
                }
                proof {
                    assert(self@ =~= tok_step(old(self)@, c));
                }
            },
            TokMode::AttrValUnq => {
                if is_space(c) {
                    self.push_attr();
                    self.mode = TokMode::BeforeAttrName;
                } else if c == '>' {
                    self.push_attr();
                    self.emit_open();
                } else {
                    self.attr_val.push(c);
                }
                proof {
                    assert(self@ =~= tok_step(old(self)@, c));
                }
            },
            TokMode::SelfClosing => {
                if c == '>' {
                    self.emit_open();
                } else if is_space(c) {
                    self.mode = TokMode::BeforeAttrName;
                } else if c == '/' {
                } else {
                    self.start_attr(c);
                    self.mode = TokMode::AttrName;
                }
                proof {
                    assert(self@ =~= tok_step(old(self)@, c));
                }
            },
            TokMode::EndTagName => {
                if c == '>' {
                    self.emit_close();
                } else if is_space(c) {
                    self.mode = TokMode::EndTagRest;
                } else {
                    self.name_buf.push(to_lower(c));
                }
                proof {
                    assert(self@ =~= tok_step(old(self)@, c));
                }
            },
            TokMode::EndTagRest => {
                if c == '>' {
                    self.emit_close();
                }
                proof {
                    assert(self@ =~= tok_step(old(self)@, c));
                }
            },
            TokMode::Bogus => {
                if c == '>' {
                    self.mode = TokMode::Data;
                }
                proof {
                    assert(self@ =~= tok_step(old(self)@, c));
                }
            },
        }
    }

}

/// Ends tokenization and hands the collected tokens out.
fn finish_tokenizer(tk: Tokenizer) -> (r: Vec<MarkToken>)
    ensures
        view_tokens(r@) == tok_finish(tk@),
{
    let ghost st0 = tk@;
    let mut tk = tk;
    match tk.mode {
        TokMode::TagOpen => {
            tk.text_buf.push('<');
        },
        TokMode::EndTagOpen => {
            tk.text_buf.push('<');
            tk.text_buf.push('/');
        },
        _ => {
        },
    }
    tk.flush_text();
    proof {
        assert(view_tokens(tk.tokens@) == tok_finish(st0));
    }
    tk.tokens
}

/// The token stream of a markup text, computed tolerantly: no input is
/// ever rejected.
pub fn tokenize(input: &Vec<char>) -> (r: Vec<MarkToken>)
    ensures
        view_tokens(r@) == tokenize_spec(input@),
{
    let mut tk = Tokenizer::new();
    proof {
        assert(input@.skip(0) =~= input@);
    }
    let mut i: usize = 0;
    while i < input.len()
        invariant
            i <= input@.len(),
            tok_run(tk@, input@.skip(i as int)) == tok_run(init_tok_state(), input@),
        decreases input@.len() - i,
    {
        let ghost suf = input@.skip(i as int);
        proof {
            assert(suf[0] == input@[i as int]);
            assert(suf.skip(1) =~= input@.skip(i + 1));
        }
        tk.step(input[i]);
        i += 1;
    }
    proof {
        assert(input@.skip(input@.len() as int) =~= Seq::<char>::empty());
    }
    finish_tokenizer(tk)
}

} // verus!
