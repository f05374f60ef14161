//! A small JSON value model and its compact text form.
use vstd::prelude::*;
use crate::text::{push_char, owned};

verus! {

/// A JSON value built by the library.
///
/// `Raw` carries text that is already JSON and is written verbatim.
#[derive(Debug, PartialEq, Eq)]
pub enum Json {
    Null,
    Bool(bool),
    Num(i64),
    Str(String),
    Arr(Vec<Json>),
    Obj(Vec<(String, Json)>),
    Raw(String),
}

/// Mathematical model of [`Json`].
pub enum JsonView {
    Null,
    Bool(bool),
    Num(int),
    Str(Seq<char>),
    Arr(Seq<JsonView>),
    Obj(Seq<(Seq<char>, JsonView)>),
    Raw(Seq<char>),
}

pub open spec fn json_view(j: Json) -> JsonView
    decreases j,
{
    match j {
        Json::Null => JsonView::Null,
        Json::Bool(b) => JsonView::Bool(b),
        Json::Num(n) => JsonView::Num(n as int),
        Json::Str(s) => JsonView::Str(s@),
        Json::Arr(v) => JsonView::Arr(items_view(v@)),
        Json::Obj(m) => JsonView::Obj(members_view(m@)),
        Json::Raw(t) => JsonView::Raw(t@),
    }
}

pub open spec fn items_view(s: Seq<Json>) -> Seq<JsonView>
    decreases s,
{
    if s.len() == 0 {
        Seq::empty()
    } else {
        items_view(s.drop_last()).push(json_view(s.last()))
    }
}

pub open spec fn members_view(s: Seq<(String, Json)>) -> Seq<(Seq<char>, JsonView)>
    decreases s,
{
    if s.len() == 0 {
        Seq::empty()
    } else {
        members_view(s.drop_last()).push((s.last().0@, json_view(s.last().1)))
    }
}

impl View for Json {
    type V = JsonView;

    open spec fn view(&self) -> JsonView {
        json_view(*self)
    }
}


/// Lowercase hexadecimal digit for `d < 16`.
pub open spec fn hex_digit(d: int) -> char {
    if d < 10 {
        (('0' as int) + d) as char
    } else {
        (('a' as int) + d - 10) as char
    }
}

/// Decimal digit for `d < 10`.
pub open spec fn dec_digit(d: int) -> char {
    (('0' as int) + d) as char
}

/// How one character is written inside a JSON string literal.
pub open spec fn escape_char(c: char) -> Seq<char> {
    if c == '"' {
        seq!['\\', '"']
    } else if c == '\\' {
        seq!['\\', '\\']
    } else if c == '\n' {
        seq!['\\', 'n']
    } else if c == '\r' {
        seq!['\\', 'r']
    } else if c == '\t' {
        seq!['\\', 't']
    } else if c == '\x08' {
        seq!['\\', 'b']
    } else if c == '\x0c' {
        seq!['\\', 'f']
    } else if (c as u32) < 0x20 {
        seq!['\\', 'u', '0', '0', hex_digit((c as u32 as int) / 16), hex_digit((c as u32 as int) % 16)]
    } else {
        seq![c]
    }
}

pub open spec fn escape_str(s: Seq<char>) -> Seq<char>
    decreases s.len(),
{
    if s.len() == 0 {
        Seq::empty()
    } else {
        escape_str(s.drop_last()) + escape_char(s.last())
    }
}

/// A JSON string literal holding `s`.
pub open spec fn str_text(s: Seq<char>) -> Seq<char> {
    seq!['"'] + escape_str(s) + seq!['"']
}

/// Decimal digits of a natural number, without leading zeros.
pub open spec fn nat_text(n: nat) -> Seq<char>
    decreases n,
{
    if n < 10 {
        seq![dec_digit(n as int)]
    } else {
        nat_text(n / 10).push(dec_digit((n % 10) as int))
    }
}

pub open spec fn int_text(n: int) -> Seq<char> {
    if n < 0 {
        seq!['-'] + nat_text((-n) as nat)
    } else {
        nat_text(n as nat)
    }
}

/// Compact JSON text of a value: no whitespace, members in the given order.
pub open spec fn json_text(j: JsonView) -> Seq<char>
    decreases j,
{
    match j {
        JsonView::Null => seq!['n', 'u', 'l', 'l'],
        JsonView::Bool(b) => if b {
            seq!['t', 'r', 'u', 'e']
        } else {
            seq!['f', 'a', 'l', 's', 'e']
        },
        JsonView::Num(n) => int_text(n),
        JsonView::Str(s) => str_text(s),
        JsonView::Arr(items) => seq!['['] + items_text(items) + seq![']'],
        JsonView::Obj(members) => seq!['{'] + members_text(members) + seq!['}'],
        JsonView::Raw(t) => t,
    }
}

pub open spec fn items_text(items: Seq<JsonView>) -> Seq<char>
    decreases items,
{
    if items.len() == 0 {
        Seq::empty()
    } else if items.len() == 1 {
        json_text(items[0])
    } else {
        items_text(items.drop_last()) + seq![','] + json_text(items.last())
    }
}

pub open spec fn member_text(m: (Seq<char>, JsonView)) -> Seq<char>
    decreases m,
{
    str_text(m.0) + seq![':'] + json_text(m.1)
}

pub open spec fn members_text(members: Seq<(Seq<char>, JsonView)>) -> Seq<char>
    decreases members,
{
    if members.len() == 0 {
        Seq::empty()
    } else if members.len() == 1 {
        member_text(members[0])
    } else {
        members_text(members.drop_last()) + seq![','] + member_text(members.last())
    }
}


fn hex_digit_exec(d: u8) -> (c: char)
    requires
        d < 16,
    ensures
        c == hex_digit(d as int),
{
    if d < 10 {
        (48u8 + d) as char
    } else {
        (97u8 + d - 10) as char
    }
}

fn write_escaped_char(c: char, out: &mut String)
    ensures
        final(out)@ == old(out)@ + escape_char(c),
{
    if c == '"' {
        push_char(out, '\\');
        push_char(out, '"');
    } else if c == '\\' {
        push_char(out, '\\');
        push_char(out, '\\');
    } else if c == '\n' {
        push_char(out, '\\');
        push_char(out, 'n');
    } else if c == '\r' {
        push_char(out, '\\');
        push_char(out, 'r');
    } else if c == '\t' {
        push_char(out, '\\');
        push_char(out, 't');
    } else if c == '\x08' {
        push_char(out, '\\');
        push_char(out, 'b');
    } else if c == '\x0c' {
        push_char(out, '\\');
        push_char(out, 'f');
    } else if (c as u32) < 0x20 {
        let code = c as u32 as u8;
        push_char(out, '\\');
        push_char(out, 'u');
        push_char(out, '0');
        push_char(out, '0');
        push_char(out, hex_digit_exec(code / 16));
        push_char(out, hex_digit_exec(code % 16));
    } else {
        push_char(out, c);
    }
    assert(final(out)@ =~= old(out)@ + escape_char(c)) by {
        reveal_with_fuel(escape_char, 1);
    }
}

/// Appends the JSON string literal for `s`.
pub fn write_str(s: &str, out: &mut String)
    ensures
        final(out)@ == old(out)@ + str_text(s@),
{
    let ghost start = out@;
    push_char(out, '"');
    for c in it: s.chars()
        invariant
            it.seq() == s@,
            out@ == start + seq!['"'] + escape_str(it.seq().take(it.index() as int)),
    {
        let ghost before = out@;
        write_escaped_char(c, out);
        proof {
            let k = it.index() as int;
            assert(it.seq().take(k + 1).drop_last() =~= it.seq().take(k));
            assert(it.seq().take(k + 1).last() == c);
            assert(out@ =~= start + seq!['"'] + escape_str(it.seq().take(k + 1)));
        }
    }
    push_char(out, '"');
    assert(s@.take(s@.len() as int) =~= s@);
    assert(out@ =~= start + str_text(s@));
}

/// Appends the decimal digits of `n`.
pub fn write_nat(n: u64, out: &mut String)
    ensures
        final(out)@ == old(out)@ + nat_text(n as nat),
    decreases n,
{
    if n >= 10 {
        write_nat(n / 10, out);
    }
    push_char(out, (48u8 + (n % 10) as u8) as char);
    assert(final(out)@ =~= old(out)@ + nat_text(n as nat));
}

pub fn write_int(n: i64, out: &mut String)
    ensures
        final(out)@ == old(out)@ + int_text(n as int),
{
    if n < 0 {
        push_char(out, '-');
        let m: u64 = (0i128 - n as i128) as u64;
        write_nat(m, out);
        assert(final(out)@ =~= old(out)@ + int_text(n as int));
    } else {
        write_nat(n as u64, out);
    }
}


proof fn lemma_items_text_push(items: Seq<JsonView>, x: JsonView)
    ensures
        items_text(items.push(x)) == if items.len() == 0 {
            json_text(x)
        } else {
            items_text(items) + seq![','] + json_text(x)
        },
{
    assert(items.push(x).drop_last() =~= items);
}

proof fn lemma_members_text_push(ms: Seq<(Seq<char>, JsonView)>, x: (Seq<char>, JsonView))
    ensures
        members_text(ms.push(x)) == if ms.len() == 0 {
            member_text(x)
        } else {
            members_text(ms) + seq![','] + member_text(x)
        },
{
    assert(ms.push(x).drop_last() =~= ms);
}

/// Appends the compact JSON text of `j`.
pub fn write_json(j: &Json, out: &mut String)
    ensures
        final(out)@ == old(out)@ + json_text(j@),
    decreases j,
{
    let ghost start = out@;
    match j {
        Json::Null => {
            push_char(out, 'n');
            push_char(out, 'u');
            push_char(out, 'l');
            push_char(out, 'l');
        },
        Json::Bool(b) => {
            if *b {
                push_char(out, 't');
                push_char(out, 'r');
                push_char(out, 'u');
                push_char(out, 'e');
            } else {
                push_char(out, 'f');
                push_char(out, 'a');
                push_char(out, 'l');
                push_char(out, 's');
                push_char(out, 'e');
            }
        },
        Json::Num(n) => {
            write_int(*n, out);
        },
        Json::Str(s) => {
            write_str(s.as_str(), out);
        },
        Json::Raw(t) => {
            let tc = crate::text::to_chars(t.as_str());
            let mut i: usize = 0;
            while i < tc.len()
                invariant
                    i <= tc@.len(),
                    tc@ == t@,
                    out@ == start + tc@.take(i as int),
                decreases tc@.len() - i,
            {
                push_char(out, tc[i]);
                assert(tc@.take(i as int).push(tc@[i as int]) =~= tc@.take(i + 1));
                i += 1;
            }
            assert(tc@.take(tc@.len() as int) =~= tc@);
        },
        Json::Arr(v) => {
            push_char(out, '[');
            let mut i: usize = 0;
            while i < v.len()
                invariant
                    i <= v@.len(),
                    *j == Json::Arr(*v),
                    out@ == start + seq!['['] + items_text(items_view(v@.take(i as int))),
                decreases v@.len() - i,
            {
                proof {
                    lemma_items_text_push(items_view(v@.take(i as int)), json_view(v@[i as int]));
                    assert(v@.take(i + 1).drop_last() =~= v@.take(i as int));
                }
                if i > 0 {
                    push_char(out, ',');
                }
                proof {
                    assert(decreases_to!(*j => (*j)->Arr_0));
                    assert(decreases_to!(*v => v@));
                    assert(decreases_to!(v@ => v@[i as int]));
                }
                write_json(&v[i], out);
                assert(out@ =~= start + seq!['['] + items_text(items_view(v@.take(i + 1))));
                i += 1;
            }
            push_char(out, ']');
            assert(v@.take(v@.len() as int) =~= v@);
        },
        Json::Obj(m) => {
            push_char(out, '{');
            let mut i: usize = 0;
            while i < m.len()
                invariant
                    i <= m@.len(),
                    *j == Json::Obj(*m),
                    out@ == start + seq!['{'] + members_text(members_view(m@.take(i as int))),
                decreases m@.len() - i,
            {
                proof {
                    lemma_members_text_push(
                        members_view(m@.take(i as int)),
                        (m@[i as int].0@, json_view(m@[i as int].1)),
                    );
                    assert(m@.take(i + 1).drop_last() =~= m@.take(i as int));
                }
                if i > 0 {
                    push_char(out, ',');
                }
                let (key, val) = &m[i];
                write_str(key.as_str(), out);
                push_char(out, ':');
                proof {
                    assert(decreases_to!(*j => (*j)->Obj_0));
                    assert(decreases_to!(*m => m@));
                    assert(decreases_to!(m@ => m@[i as int]));
                    assert(decreases_to!(m@[i as int] => m@[i as int].1));
                }
                write_json(val, out);
                assert(out@ =~= start + seq!['{'] + members_text(members_view(m@.take(i + 1))));
                i += 1;
            }
            push_char(out, '}');
            assert(m@.take(m@.len() as int) =~= m@);
        },
    }
    assert(final(out)@ =~= start + json_text(j@));
}

/// The compact JSON text of `j`.
pub fn to_json_string(j: &Json) -> (s: String)
    ensures
        s@ == json_text(j@),
{
    let mut s = String::new();
    write_json(j, &mut s);
    assert(s@ =~= json_text(j@));
    s
}


/// The UTF-8 encoding of a character sequence.
pub open spec fn utf8_bytes(s: Seq<char>) -> Seq<u8> {
    vstd::utf8::encode_utf8(s)
}


// ---- building small values with known views ----

pub fn obj1(k1: &str, v1: Json) -> (r: Json)
    ensures
        r@ == JsonView::Obj(seq![(k1@, v1@)]),
{
    let a = (owned(k1), v1);
    let m = vec![a];
    proof {
        let e = Seq::<(String, Json)>::empty();
        assert(m@.drop_last() =~= e);
        assert(members_view(e) == Seq::<(Seq<char>, JsonView)>::empty());
        assert(members_view(m@) =~= seq![(k1@, v1@)]);
    }
    Json::Obj(m)
}

pub fn obj2(k1: &str, v1: Json, k2: &str, v2: Json) -> (r: Json)
    ensures
        r@ == JsonView::Obj(seq![(k1@, v1@), (k2@, v2@)]),
{
    let a = (owned(k1), v1);
    let b = (owned(k2), v2);
    let m = vec![a, b];
    proof {
        let e = Seq::<(String, Json)>::empty();
        assert(m@.drop_last() =~= seq![a]);
        assert(seq![a].drop_last() =~= e);
        assert(members_view(e) == Seq::<(Seq<char>, JsonView)>::empty());
        assert(members_view(seq![a]) =~= seq![(k1@, v1@)]);
        assert(members_view(m@) =~= seq![(k1@, v1@), (k2@, v2@)]);
    }
    Json::Obj(m)
}

pub fn obj3(k1: &str, v1: Json, k2: &str, v2: Json, k3: &str, v3: Json) -> (r: Json)
    ensures
        r@ == JsonView::Obj(seq![(k1@, v1@), (k2@, v2@), (k3@, v3@)]),
{
    let a = (owned(k1), v1);
    let b = (owned(k2), v2);
    let c = (owned(k3), v3);
    let m = vec![a, b, c];
    proof {
        let e = Seq::<(String, Json)>::empty();
        assert(m@.drop_last() =~= seq![a, b]);
        assert(seq![a, b].drop_last() =~= seq![a]);
        assert(seq![a].drop_last() =~= e);
        assert(members_view(e) == Seq::<(Seq<char>, JsonView)>::empty());
        assert(members_view(seq![a]) =~= seq![(k1@, v1@)]);
        assert(members_view(seq![a, b]) =~= seq![(k1@, v1@), (k2@, v2@)]);
        assert(members_view(m@) =~= seq![(k1@, v1@), (k2@, v2@), (k3@, v3@)]);
    }
    Json::Obj(m)
}

pub fn arr1(x: Json) -> (r: Json)
    ensures
        r@ == JsonView::Arr(seq![x@]),
{
    let v = vec![x];
    proof {
        let e = Seq::<Json>::empty();
        assert(v@.drop_last() =~= e);
        assert(items_view(e) == Seq::<JsonView>::empty());
        assert(items_view(v@) =~= seq![x@]);
    }
    Json::Arr(v)
}

pub fn arr2(x: Json, y: Json) -> (r: Json)
    ensures
        r@ == JsonView::Arr(seq![x@, y@]),
{
    let v = vec![x, y];
    proof {
        let e = Seq::<Json>::empty();
        assert(v@.drop_last() =~= seq![x]);
        assert(seq![x].drop_last() =~= e);
        assert(items_view(e) == Seq::<JsonView>::empty());
        assert(items_view(seq![x]) =~= seq![x@]);
        assert(items_view(v@) =~= seq![x@, y@]);
    }
    Json::Arr(v)
}

pub fn jstr(s: &str) -> (r: Json)
    ensures
        r@ == JsonView::Str(s@),
{
    Json::Str(owned(s))
}

} // verus!
