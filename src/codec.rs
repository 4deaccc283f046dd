//! The snapshot format: a JSON array of objects, one per record, with the
//! fields in declaration order:
//! `[{"id":1,"plant_type":"Fruit","name":"Apple",...},...]`.
//! Encoding writes no whitespace; decoding also takes whitespace between
//! tokens and records without an id. Every catalog survives an export and an
//! import unchanged.
use vstd::prelude::*;
use crate::plant::{canonical_name, PlantType};
use crate::seed::{views, Seed, SeedView, TEXT_FIELDS};
use crate::text::{
    chars_of, push_digits, push_escaped, push_lit, read_lit_at, read_num_at, read_str_at, skip_ws_at, string_from_chars,
    tok_at, after_lit, digits, escape, lemma_after_lit, lemma_digits, lemma_escape_plain, lemma_read_num,
    lemma_read_str, lemma_tok, read_num, read_str, skip_ws, tok,
};

verus! {

/// Why a snapshot text could not be read.
#[derive(PartialEq, Eq, Structural, Clone, Copy, Debug)]
pub struct DecodeError;

/// The key under which the text attribute at position `k` is written.
pub open spec fn key_of(k: int) -> Seq<char> {
    if k == 0 {
        "name"@
    } else if k == 1 {
        "variety"@
    } else if k == 2 {
        "description"@
    } else if k == 3 {
        "company"@
    } else if k == 4 {
        "company_id"@
    } else if k == 5 {
        "start_instructions"@
    } else if k == 6 {
        "germinate_time"@
    } else if k == 7 {
        "germinate_temp"@
    } else if k == 8 {
        "transplant_time"@
    } else if k == 9 {
        "final_spacing"@
    } else {
        "harvest_time"@
    }
}

/// How the text attribute `f` at position `k` is written.
pub open spec fn text_piece(k: int, f: Seq<char>) -> Seq<char> {
    ","@ + "\""@ + key_of(k) + "\""@ + ":"@ + "\""@ + escape(f) + seq!['"']
}

/// How the text attributes `fs`, from position `k` on, are written.
pub open spec fn pieces(fs: Seq<Seq<char>>, k: int) -> Seq<char>
    decreases fs.len(),
{
    if fs.len() == 0 {
        Seq::empty()
    } else {
        text_piece(k, fs[0]) + pieces(fs.drop_first(), k + 1)
    }
}

/// How one record is written.
#[verifier::opaque]
pub open spec fn encode_seed(v: SeedView) -> Seq<char> {
    "{"@ + "\"id\""@ + ":"@ + digits(v.id as nat) + ","@ + "\"plant_type\""@ + ":"@ + "\""@ + canonical_name(
        v.plant_type,
    ) + seq!['"'] + pieces(v.texts, 0) + "}"@
}

/// How the records after the first are written, with the closing bracket.
pub open spec fn encode_more(c: Seq<SeedView>) -> Seq<char>
    decreases c.len(),
{
    if c.len() == 0 {
        "]"@
    } else {
        ","@ + encode_seed(c[0]) + encode_more(c.drop_first())
    }
}

/// How a catalog is written.
pub open spec fn encode_catalog(c: Seq<SeedView>) -> Seq<char> {
    if c.len() == 0 {
        "["@ + "]"@
    } else {
        "["@ + encode_seed(c[0]) + encode_more(c.drop_first())
    }
}

/// Every record view of `c` has its eleven text attributes.
pub open spec fn all_wf(c: Seq<SeedView>) -> bool {
    forall|i: int| 0 <= i < c.len() ==> (#[trigger] c[i]).wf()
}

/// The classification whose canonical name is `s`.
pub open spec fn type_named(s: Seq<char>) -> Option<PlantType> {
    if s == canonical_name(PlantType::Fruit) {
        Some(PlantType::Fruit)
    } else if s == canonical_name(PlantType::Vegetable) {
        Some(PlantType::Vegetable)
    } else if s == canonical_name(PlantType::Flower) {
        Some(PlantType::Flower)
    } else if s == canonical_name(PlantType::Tree) {
        Some(PlantType::Tree)
    } else {
        None
    }
}

/// Reads the text attributes from position `k` on: for each, a comma, the
/// quoted key, a colon and the quoted value, with whitespace allowed between
/// tokens.
pub open spec fn read_texts(t: Seq<char>, k: int) -> Option<(Seq<Seq<char>>, Seq<char>)>
    decreases TEXT_FIELDS - k,
{
    if k < 0 || k >= TEXT_FIELDS {
        Some((Seq::empty(), t))
    } else {
        match tok(t, ","@) {
            None => None,
            Some(t1) => match tok(t1, "\""@) {
                None => None,
                Some(t2) => match after_lit(t2, key_of(k)) {
                    None => None,
                    Some(t3) => match after_lit(t3, "\""@) {
                        None => None,
                        Some(t4) => match tok(t4, ":"@) {
                            None => None,
                            Some(t5) => match tok(t5, "\""@) {
                                None => None,
                                Some(t6) => match read_str(t6) {
                                    None => None,
                                    Some((f, t7)) => match read_texts(t7, k + 1) {
                                        None => None,
                                        Some((fs, t8)) => Some((seq![f] + fs, t8)),
                                    },
                                },
                            },
                        },
                    },
                },
            },
        }
    }
}

/// Reads the fields of a record after its id: the plant type, the text
/// attributes and the closing brace.
pub open spec fn read_fields(t: Seq<char>, id: u64) -> Option<(SeedView, Seq<char>)> {
    match tok(t, "\"plant_type\""@) {
        None => None,
        Some(u1) => match tok(u1, ":"@) {
            None => None,
            Some(u2) => match tok(u2, "\""@) {
                None => None,
                Some(u3) => match read_str(u3) {
                    None => None,
                    Some((nm, u4)) => match type_named(nm) {
                        None => None,
                        Some(p) => match read_texts(u4, 0) {
                            None => None,
                            Some((texts, u5)) => match tok(u5, "}"@) {
                                None => None,
                                Some(u6) => Some((SeedView { id, plant_type: p, texts }, u6)),
                            },
                        },
                    },
                },
            },
        },
    }
}

/// Reads the record at position `idx` of the array. A record without an
/// `"id"` field gets its position as id.
#[verifier::opaque]
pub open spec fn read_seed(t: Seq<char>, idx: int) -> Option<(SeedView, Seq<char>)> {
    match tok(t, "{"@) {
        None => None,
        Some(t1) => match tok(t1, "\"id\""@) {
            Some(t2) => match tok(t2, ":"@) {
                None => None,
                Some(t3) => match read_num(skip_ws(t3)) {
                    None => None,
                    Some((id, t4)) => match tok(t4, ","@) {
                        None => None,
                        Some(t5) => read_fields(t5, id),
                    },
                },
            },
            None => if 0 <= idx <= u64::MAX {
                read_fields(t1, idx as u64)
            } else {
                None
            },
        },
    }
}

pub open spec fn cons_seed(v: SeedView, o: Option<(Seq<SeedView>, Seq<char>)>) -> Option<(Seq<SeedView>, Seq<char>)> {
    match o {
        Some((vs, r)) => Some((seq![v] + vs, r)),
        None => None,
    }
}

/// Reads the records from array position `idx` on, through the closing
/// bracket.
pub open spec fn read_more(t: Seq<char>, idx: int) -> Option<(Seq<SeedView>, Seq<char>)>
    decreases t.len(),
{
    match tok(t, "]"@) {
        Some(r) => Some((Seq::empty(), r)),
        None => match tok(t, ","@) {
            None => None,
            Some(t1) => match read_seed(t1, idx) {
                None => None,
                Some((v, t2)) => if t2.len() < t.len() {
                    cons_seed(v, read_more(t2, idx + 1))
                } else {
                    None
                },
            },
        },
    }
}

/// The catalog that a snapshot text holds, if it is well formed: a JSON
/// array of record objects, with whitespace allowed between tokens and
/// around the array. Each object holds, in this order, an optional `"id"`
/// (a decimal without leading zeros; when absent, the record's position in
/// the array), `"plant_type"` (a canonical name) and the eleven text
/// attributes under their keys, as JSON strings.
pub open spec fn read_catalog(t: Seq<char>) -> Option<Seq<SeedView>> {
    match tok(t, "["@) {
        None => None,
        Some(t1) => match tok(t1, "]"@) {
            Some(t2) => if skip_ws(t2).len() == 0 {
                Some(Seq::empty())
            } else {
                None
            },
            None => match read_seed(t1, 0) {
                None => None,
                Some((v, t2)) => match read_more(t2, 1) {
                    None => None,
                    Some((vs, t3)) => if skip_ws(t3).len() == 0 {
                        Some(seq![v] + vs)
                    } else {
                        None
                    },
                },
            },
        },
    }
}

proof fn lemma_names(p: PlantType)
    ensures
        escape(canonical_name(p)) == canonical_name(p),
        type_named(canonical_name(p)) == Some(p),
        canonical_name(p).len() > 0,
{
    reveal_strlit("Fruit");
    reveal_strlit("Vegetable");
    reveal_strlit("Flower");
    reveal_strlit("Tree");
    lemma_escape_plain(canonical_name(p));
}

proof fn lemma_literals()
    ensures
        ","@ == seq![','],
        "\""@ == seq!['"'],
        ":"@ == seq![':'],
        "{"@ == seq!['{'],
        "}"@ == seq!['}'],
        "["@ == seq!['['],
        "]"@ == seq![']'],
        "\"id\""@.len() > 0 && "\"id\""@[0] == '"',
        "\"plant_type\""@.len() > 0 && "\"plant_type\""@[0] == '"',
{
    reveal_strlit(",");
    reveal_strlit("\"");
    reveal_strlit(":");
    reveal_strlit("{");
    reveal_strlit("}");
    reveal_strlit("[");
    reveal_strlit("]");
    reveal_strlit("\"id\"");
    reveal_strlit("\"plant_type\"");
    assert(","@ =~= seq![',']);
    assert("\""@ =~= seq!['"']);
    assert(":"@ =~= seq![':']);
    assert("{"@ =~= seq!['{']);
    assert("}"@ =~= seq!['}']);
    assert("["@ =~= seq!['[']);
    assert("]"@ =~= seq![']']);
}

#[verifier::rlimit(100)]
proof fn lemma_read_texts(fs: Seq<Seq<char>>, k: int, rest: Seq<char>)
    requires
        0 <= k <= TEXT_FIELDS,
        fs.len() == TEXT_FIELDS - k,
    ensures
        read_texts(pieces(fs, k) + rest, k) == Some((fs, rest)),
    decreases fs.len(),
{
    if k == TEXT_FIELDS {
        assert(fs =~= Seq::<Seq<char>>::empty());
        assert(pieces(fs, k) + rest =~= rest);
    } else {
        lemma_literals();
        let f = fs[0];
        let tail = pieces(fs.drop_first(), k + 1) + rest;
        let t = pieces(fs, k) + rest;
        let x6 = escape(f) + seq!['"'] + tail;
        let x5 = "\""@ + x6;
        let x4 = ":"@ + x5;
        let x3 = "\""@ + x4;
        let x2 = key_of(k) + x3;
        let x1 = "\""@ + x2;
        assert(t =~= ","@ + x1);
        lemma_tok(","@, x1);
        lemma_tok("\""@, x2);
        lemma_after_lit(key_of(k), x3);
        lemma_after_lit("\""@, x4);
        lemma_tok(":"@, x5);
        lemma_tok("\""@, x6);
        lemma_read_str(f, tail);
        lemma_read_texts(fs.drop_first(), k + 1, rest);
        assert(seq![f] + fs.drop_first() =~= fs);
    }
}

proof fn lemma_read_seed(v: SeedView, rest: Seq<char>, idx: int)
    requires
        v.wf(),
    ensures
        read_seed(encode_seed(v) + rest, idx) == Some((v, rest)),
        encode_seed(v).len() > 0,
        encode_seed(v)[0] == '{',
{
    reveal(read_seed);
    reveal(encode_seed);
    lemma_literals();
    let d = digits(v.id as nat);
    let nm = canonical_name(v.plant_type);
    let u5 = "}"@ + rest;
    let u4 = pieces(v.texts, 0) + u5;
    let u3 = nm + seq!['"'] + u4;
    let u2 = "\""@ + u3;
    let u1 = ":"@ + u2;
    let t5 = "\"plant_type\""@ + u1;
    let t4 = ","@ + t5;
    let t3 = d + t4;
    let t2 = ":"@ + t3;
    let t1 = "\"id\""@ + t2;
    let t = encode_seed(v) + rest;
    assert(t =~= "{"@ + t1);
    lemma_tok("{"@, t1);
    lemma_tok("\"id\""@, t2);
    lemma_tok(":"@, t3);
    lemma_digits(v.id as nat);
    assert(t3[0] == d[0]);
    assert(skip_ws(t3) == t3);
    lemma_read_num(v.id, t4);
    lemma_tok(","@, t5);
    lemma_tok("\"plant_type\""@, u1);
    lemma_tok(":"@, u2);
    lemma_tok("\""@, u3);
    lemma_names(v.plant_type);
    lemma_read_str(nm, u4);
    lemma_read_texts(v.texts, 0, u5);
    lemma_tok("}"@, rest);
    assert(v.texts.subrange(0, TEXT_FIELDS as int) =~= v.texts);
}

proof fn lemma_read_more(c: Seq<SeedView>, rest: Seq<char>, idx: int)
    requires
        all_wf(c),
    ensures
        read_more(encode_more(c) + rest, idx) == Some((c, rest)),
    decreases c.len(),
{
    lemma_literals();
    let t = encode_more(c) + rest;
    if c.len() == 0 {
        lemma_tok("]"@, rest);
        assert(c =~= Seq::<SeedView>::empty());
    } else {
        let tail = encode_more(c.drop_first()) + rest;
        let x1 = encode_seed(c[0]) + tail;
        assert(t =~= ","@ + x1);
        assert(t[0] == ',');
        assert(skip_ws(t) == t);
        assert(tok(t, "]"@) is None) by {
            assert(t.subrange(0, 1)[0] != "]"@[0]);
        }
        lemma_tok(","@, x1);
        assert(c[0].wf());
        lemma_read_seed(c[0], tail, idx);
        assert(all_wf(c.drop_first())) by {
            assert forall|i: int| 0 <= i < c.drop_first().len() implies (#[trigger] c.drop_first()[i]).wf() by {
                assert(c.drop_first()[i] == c[i + 1]);
            }
        }
        lemma_read_more(c.drop_first(), rest, idx + 1);
        assert(seq![c[0]] + c.drop_first() =~= c);
    }
}

/// Reading back a written catalog gives the catalog itself.
pub proof fn law_round_trip(c: Seq<SeedView>)
    requires
        all_wf(c),
    ensures
        read_catalog(encode_catalog(c)) == Some(c),
{
    lemma_literals();
    let t = encode_catalog(c);
    let e = Seq::<char>::empty();
    if c.len() == 0 {
        assert(t =~= "["@ + ("]"@ + e));
        lemma_tok("["@, "]"@ + e);
        lemma_tok("]"@, e);
    } else {
        let x1 = encode_seed(c[0]) + encode_more(c.drop_first());
        assert(t =~= "["@ + x1);
        lemma_tok("["@, x1);
        assert(encode_more(c.drop_first()) + e =~= encode_more(c.drop_first()));
        assert(c[0].wf());
        lemma_read_seed(c[0], encode_more(c.drop_first()), 0);
        assert(x1[0] == '{');
        assert(skip_ws(x1) == x1);
        assert(tok(x1, "]"@) is None) by {
            assert(x1.subrange(0, 1)[0] != "]"@[0]);
        }
        assert(all_wf(c.drop_first())) by {
            assert forall|i: int| 0 <= i < c.drop_first().len() implies (#[trigger] c.drop_first()[i]).wf() by {
                assert(c.drop_first()[i] == c[i + 1]);
            }
        }
        lemma_read_more(c.drop_first(), e, 1);
        assert(seq![c[0]] + c.drop_first() =~= c);
    }
}

/// The text attributes of `v` as plain values.
pub open spec fn text_views(v: Seq<String>) -> Seq<Seq<char>> {
    v.map_values(|x: String| x@)
}

#[verifier::rlimit(100)]
fn push_pieces(out: &mut Vec<char>, s: &Seed, k: usize)
    requires
        k <= TEXT_FIELDS,
    ensures
        final(out)@ == old(out)@ + pieces(s@.texts.subrange(k as int, TEXT_FIELDS as int), k as int),
    decreases TEXT_FIELDS - k,
{
    let ghost fs = s@.texts.subrange(k as int, TEXT_FIELDS as int);
    if k == TEXT_FIELDS {
        assert(fs =~= Seq::<Seq<char>>::empty());
        assert(out@ =~= old(out)@ + pieces(fs, k as int));
        return;
    }
    push_lit(out, ",");
    push_lit(out, "\"");
    push_lit(out, key(k));
    push_lit(out, "\"");
    push_lit(out, ":");
    push_lit(out, "\"");
    push_escaped(out, s.text(k).as_str());
    out.push('"');
    push_pieces(out, s, k + 1);
    assert(fs.drop_first() =~= s@.texts.subrange(k + 1, TEXT_FIELDS as int));
    assert(out@ =~= old(out)@ + pieces(fs, k as int));
}

fn key(k: usize) -> (r: &'static str)
    ensures
        r@ == key_of(k as int),
{
    if k == 0 {
        "name"
    } else if k == 1 {
        "variety"
    } else if k == 2 {
        "description"
    } else if k == 3 {
        "company"
    } else if k == 4 {
        "company_id"
    } else if k == 5 {
        "start_instructions"
    } else if k == 6 {
        "germinate_time"
    } else if k == 7 {
        "germinate_temp"
    } else if k == 8 {
        "transplant_time"
    } else if k == 9 {
        "final_spacing"
    } else {
        "harvest_time"
    }
}

fn push_seed(out: &mut Vec<char>, s: &Seed)
    ensures
        final(out)@ == old(out)@ + encode_seed(s@),
{
    push_lit(out, "{");
    push_lit(out, "\"id\"");
    push_lit(out, ":");
    push_digits(out, s.id);
    push_lit(out, ",");
    push_lit(out, "\"plant_type\"");
    push_lit(out, ":");
    push_lit(out, "\"");
    push_lit(out, s.plant_type.name());
    out.push('"');
    push_pieces(out, s, 0);
    push_lit(out, "}");
    assert(s@.texts.subrange(0, TEXT_FIELDS as int) =~= s@.texts);
    reveal(encode_seed);
    assert(out@ =~= old(out)@ + encode_seed(s@));
}

/// Writes a catalog as snapshot text.
pub fn encode(records: &Vec<Seed>) -> (r: String)
    ensures
        r@ == encode_catalog(views(records@)),
{
    let mut out: Vec<char> = Vec::new();
    push_lit(&mut out, "[");
    let n = records.len();
    let ghost c = views(records@);
    if n > 0 {
        push_seed(&mut out, &records[0]);
    }
    let mut i: usize = 1;
    while i < n
        invariant
            n == records@.len(),
            1 <= i <= n || n == 0,
            c == views(records@),
            n > 0 ==> out@ + encode_more(c.subrange(i as int, n as int)) == encode_catalog(c),
            n == 0 ==> out@ == "["@,
        decreases n - i,
    {
        let ghost before = out@;
        push_lit(&mut out, ",");
        push_seed(&mut out, &records[i]);
        proof {
            let rest = c.subrange(i as int, n as int);
            assert(rest.drop_first() =~= c.subrange(i + 1, n as int));
            assert(rest[0] == records@[i as int]@);
            assert(out@ + encode_more(c.subrange(i + 1, n as int)) =~= before + encode_more(rest));
        }
        i = i + 1;
    }
    push_lit(&mut out, "]");
    proof {
        if n > 0 {
            assert(c.subrange(n as int, n as int) =~= Seq::<SeedView>::empty());
            assert(c.drop_first() =~= c.subrange(1, n as int));
        }
    }
    string_from_chars(&out)
}

fn take_last(v: &mut Vec<String>) -> (r: String)
    requires
        old(v)@.len() > 0,
    ensures
        final(v)@ == old(v)@.drop_last(),
        r == old(v)@.last(),
{
    match v.pop() {
        Some(x) => x,
        None => String::new(),
    }
}

fn read_texts_at(t: &Vec<char>, i: usize, k: usize) -> (r: Option<(Vec<String>, usize)>)
    requires
        i <= t@.len(),
        k <= TEXT_FIELDS,
    ensures
        match r {
            Some((v, j)) => i <= j <= t@.len() && read_texts(t@.subrange(i as int, t@.len() as int), k as int) == Some(
                (text_views(v@), t@.subrange(j as int, t@.len() as int)),
            ) && v@.len() == TEXT_FIELDS - k,
            None => read_texts(t@.subrange(i as int, t@.len() as int), k as int) is None,
        },
    decreases TEXT_FIELDS - k,
{
    if k == TEXT_FIELDS {
        let v: Vec<String> = Vec::new();
        assert(text_views(v@) =~= Seq::<Seq<char>>::empty());
        return Some((v, i));
    }
    let i1 = match tok_at(t, i, ",") {
        Some(j) => j,
        None => return None,
    };
    let i2 = match tok_at(t, i1, "\"") {
        Some(j) => j,
        None => return None,
    };
    let i3 = match read_lit_at(t, i2, key(k)) {
        Some(j) => j,
        None => return None,
    };
    let i4 = match read_lit_at(t, i3, "\"") {
        Some(j) => j,
        None => return None,
    };
    let i5 = match tok_at(t, i4, ":") {
        Some(j) => j,
        None => return None,
    };
    let i6 = match tok_at(t, i5, "\"") {
        Some(j) => j,
        None => return None,
    };
    let (f, i7) = match read_str_at(t, i6) {
        Some(x) => x,
        None => return None,
    };
    let (mut v, i8) = match read_texts_at(t, i7, k + 1) {
        Some(x) => x,
        None => return None,
    };
    let ghost old_v = v@;
    v.insert(0, string_from_chars(&f));
    assert(text_views(v@) =~= seq![f@] + text_views(old_v));
    Some((v, i8))
}

fn type_from_name(nm: &Vec<char>) -> (r: Option<PlantType>)
    ensures
        r == type_named(nm@),
{
    if chars_equal(nm, "Fruit") {
        Some(PlantType::Fruit)
    } else if chars_equal(nm, "Vegetable") {
        Some(PlantType::Vegetable)
    } else if chars_equal(nm, "Flower") {
        Some(PlantType::Flower)
    } else if chars_equal(nm, "Tree") {
        Some(PlantType::Tree)
    } else {
        None
    }
}

fn chars_equal(v: &Vec<char>, l: &str) -> (r: bool)
    ensures
        r == (v@ == l@),
{
    let n = l.unicode_len();
    if v.len() != n {
        return false;
    }
    let mut k: usize = 0;
    while k < n
        invariant
            n == l@.len(),
            n == v@.len(),
            k <= n,
            forall|m: int| 0 <= m < k ==> v@[m] == l@[m],
        decreases n - k,
    {
        if v[k] != l.get_char(k) {
            return false;
        }
        k = k + 1;
    }
    assert(v@ =~= l@);
    true
}

fn read_fields_at(t: &Vec<char>, i: usize, id: u64) -> (r: Option<(Seed, usize)>)
    requires
        i <= t@.len(),
    ensures
        match r {
            Some((s, j)) => i <= j <= t@.len() && read_fields(t@.subrange(i as int, t@.len() as int), id) == Some(
                (s@, t@.subrange(j as int, t@.len() as int)),
            ),
            None => read_fields(t@.subrange(i as int, t@.len() as int), id) is None,
        },
{
    let i1 = match tok_at(t, i, "\"plant_type\"") {
        Some(j) => j,
        None => return None,
    };
    let i2 = match tok_at(t, i1, ":") {
        Some(j) => j,
        None => return None,
    };
    let i3 = match tok_at(t, i2, "\"") {
        Some(j) => j,
        None => return None,
    };
    let (nm, i4) = match read_str_at(t, i3) {
        Some(x) => x,
        None => return None,
    };
    let plant_type = match type_from_name(&nm) {
        Some(p) => p,
        None => return None,
    };
    let (mut v, i5) = match read_texts_at(t, i4, 0) {
        Some(x) => x,
        None => return None,
    };
    let i6 = match tok_at(t, i5, "}") {
        Some(j) => j,
        None => return None,
    };
    let ghost texts = text_views(v@);
    let harvest_time = take_last(&mut v);
    let final_spacing = take_last(&mut v);
    let transplant_time = take_last(&mut v);
    let germinate_temp = take_last(&mut v);
    let germinate_time = take_last(&mut v);
    let start_instructions = take_last(&mut v);
    let company_id = take_last(&mut v);
    let company = take_last(&mut v);
    let description = take_last(&mut v);
    let variety = take_last(&mut v);
    let name = take_last(&mut v);
    let s = Seed::new(
        id,
        plant_type,
        name,
        variety,
        description,
        company,
        company_id,
        start_instructions,
        germinate_time,
        germinate_temp,
        transplant_time,
        final_spacing,
        harvest_time,
    );
    assert(s@.texts =~= texts);
    Some((s, i6))
}

fn read_seed_at(t: &Vec<char>, i: usize, idx: u64) -> (r: Option<(Seed, usize)>)
    requires
        i <= t@.len(),
    ensures
        match r {
            Some((s, j)) => i < j <= t@.len() && read_seed(t@.subrange(i as int, t@.len() as int), idx as int) == Some(
                (s@, t@.subrange(j as int, t@.len() as int)),
            ),
            None => read_seed(t@.subrange(i as int, t@.len() as int), idx as int) is None,
        },
{
    reveal(read_seed);
    proof {
        lemma_literals();
    }
    let i1 = match tok_at(t, i, "{") {
        Some(j) => j,
        None => return None,
    };
    match tok_at(t, i1, "\"id\"") {
        Some(i2) => {
            let i3 = match tok_at(t, i2, ":") {
                Some(j) => j,
                None => return None,
            };
            let i4 = skip_ws_at(t, i3);
            let (id, i5) = match read_num_at(t, i4) {
                Some(x) => x,
                None => return None,
            };
            let i6 = match tok_at(t, i5, ",") {
                Some(j) => j,
                None => return None,
            };
            read_fields_at(t, i6, id)
        },
        None => read_fields_at(t, i1, idx),
    }
}

pub open spec fn prefix_seeds(a: Seq<SeedView>, o: Option<(Seq<SeedView>, Seq<char>)>) -> Option<(Seq<SeedView>, Seq<char>)> {
    match o {
        Some((vs, r)) => Some((a + vs, r)),
        None => None,
    }
}

fn read_more_at(t: &Vec<char>, i: usize, acc: &mut Vec<Seed>) -> (r: Option<usize>)
    requires
        i <= t@.len(),
    ensures
        match r {
            Some(j) => i <= j <= t@.len() && prefix_seeds(
                views(old(acc)@),
                read_more(t@.subrange(i as int, t@.len() as int), old(acc)@.len() as int),
            ) == Some((views(final(acc)@), t@.subrange(j as int, t@.len() as int))),
            None => read_more(t@.subrange(i as int, t@.len() as int), old(acc)@.len() as int) is None,
        },
{
    let n = t.len();
    let mut p: usize = i;
    let ghost start = views(acc@);
    let ghost start_len = acc@.len() as int;
    proof {
        lemma_literals();
    }
    loop
        invariant
            n == t@.len(),
            i <= p <= n,
            prefix_seeds(start, read_more(t@.subrange(i as int, n as int), start_len)) == prefix_seeds(
                views(acc@),
                read_more(t@.subrange(p as int, n as int), acc@.len() as int),
            ),
            start == views(old(acc)@),
            start_len == old(acc)@.len(),
            read_more(t@.subrange(i as int, n as int), start_len) is None ==> read_more(
                t@.subrange(p as int, n as int),
                acc@.len() as int,
            ) is None,
        decreases n - p,
    {
        match tok_at(t, p, "]") {
            Some(j) => {
                assert(views(acc@) + Seq::<SeedView>::empty() =~= views(acc@));
                return Some(j);
            },
            None => {},
        }
        let q1 = match tok_at(t, p, ",") {
            Some(j) => j,
            None => return None,
        };
        let (s, q2) = match read_seed_at(t, q1, acc.len() as u64) {
            Some(x) => x,
            None => return None,
        };
        let ghost before = views(acc@);
        acc.push(s);
        proof {
            assert(views(acc@) =~= before.push(s@));
            let o = read_more(t@.subrange(q2 as int, n as int), acc@.len() as int);
            match o {
                Some((vs, r)) => {
                    assert(before + (seq![s@] + vs) =~= views(acc@) + vs);
                },
                None => {},
            }
        }
        p = q2;
    }
}

fn read_catalog_at(t: &Vec<char>) -> (r: Option<Vec<Seed>>)
    ensures
        match r {
            Some(v) => read_catalog(t@) == Some(views(v@)),
            None => read_catalog(t@) is None,
        },
{
    assert(t@.subrange(0, t@.len() as int) =~= t@);
    let n = t.len();
    let i1 = match tok_at(t, 0, "[") {
        Some(j) => j,
        None => return None,
    };
    match tok_at(t, i1, "]") {
        Some(j) => {
            if skip_ws_at(t, j) == n {
                let v: Vec<Seed> = Vec::new();
                assert(views(v@) =~= Seq::<SeedView>::empty());
                return Some(v);
            } else {
                return None;
            }
        },
        None => {},
    }
    let (s, i2) = match read_seed_at(t, i1, 0) {
        Some(x) => x,
        None => return None,
    };
    let mut acc: Vec<Seed> = Vec::new();
    acc.push(s);
    assert(views(acc@) =~= seq![s@]);
    let i3 = match read_more_at(t, i2, &mut acc) {
        Some(j) => j,
        None => return None,
    };
    if skip_ws_at(t, i3) == n {
        Some(acc)
    } else {
        None
    }
}

/// Reads a catalog from snapshot text, by the grammar of `read_catalog`.
/// Malformed text fails; text that `encode` wrote gives back the catalog
/// that was written.
pub fn decode(text: &str) -> (r: Result<Vec<Seed>, DecodeError>)
    ensures
        match r {
            Ok(v) => read_catalog(text@) == Some(views(v@)),
            Err(e) => read_catalog(text@) is None && forall|c: Seq<SeedView>|
                all_wf(c) ==> #[trigger] encode_catalog(c) != text@,
        },
{
    let t = chars_of(text);
    match read_catalog_at(&t) {
        Some(v) => Ok(v),
        None => {
            proof {
                assert forall|c: Seq<SeedView>| all_wf(c) implies #[trigger] encode_catalog(c) != text@ by {
                    law_round_trip(c);
                }
            }
            Err(DecodeError)
        },
    }
}

/// Two catalogs that are written alike are the same catalog.
pub proof fn law_encoding_injective(c: Seq<SeedView>, d: Seq<SeedView>)
    requires
        all_wf(c),
        all_wf(d),
        encode_catalog(d) == encode_catalog(c),
    ensures
        d == c,
{
    law_round_trip(c);
    law_round_trip(d);
}

/// A one-record catalog survives being written and read back.
pub proof fn law_single_round_trip(x: Seed)
    ensures
        read_catalog(encode_catalog(views(seq![x]))) == Some(views(seq![x])),
        views(seq![x]) == seq![x@],
{
    let c = views(seq![x]);
    assert(c =~= seq![x@]);
    assert(all_wf(c));
    law_round_trip(c);
}

} // verus!
