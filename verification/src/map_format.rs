//! The text format of a map: one record per path, records separated by `;`,
//! the ten fields of a record separated by `,`.
//!
//! The six geometric fields (`x`, `y`, `w`, `h`, `d1`, `d2`) are carried as
//! the text of their decimal numbers; the three flags are spelled `true` or
//! `false`, and the layer is a signed decimal integer.

use vstd::prelude::*;
use crate::text::{
    bool_text, i8_text, join_with, split_on, free_of, parse_bool_spec, parse_i8_spec,
    pieces_view, push_char, push_bool_text, push_i8_text, parse_bool, parse_i8, split_chars,
    chars_of, string_of, lemma_split_join, lemma_nat_text, lemma_i8_roundtrip,
    lemma_bool_roundtrip, is_digit, nat_text,
};

verus! {

/// One path of a map as it is written in a map file.
pub struct PathRecord {
    pub x: String,
    pub y: String,
    pub w: String,
    pub h: String,
    pub d1: String,
    pub d2: String,
    pub rnd_end1: bool,
    pub rnd_end2: bool,
    pub hori: bool,
    pub layer: i8,
}

/// What a `PathRecord` holds, as mathematical values.
pub struct PathRecordView {
    pub x: Seq<char>,
    pub y: Seq<char>,
    pub w: Seq<char>,
    pub h: Seq<char>,
    pub d1: Seq<char>,
    pub d2: Seq<char>,
    pub rnd_end1: bool,
    pub rnd_end2: bool,
    pub hori: bool,
    pub layer: i8,
}

impl View for PathRecord {
    type V = PathRecordView;

    open spec fn view(&self) -> PathRecordView {
        PathRecordView {
            x: self.x@,
            y: self.y@,
            w: self.w@,
            h: self.h@,
            d1: self.d1@,
            d2: self.d2@,
            rnd_end1: self.rnd_end1,
            rnd_end2: self.rnd_end2,
            hori: self.hori,
            layer: self.layer,
        }
    }
}

/// The records of a vector, as mathematical values.
pub open spec fn records_view(v: Seq<PathRecord>) -> Seq<PathRecordView> {
    v.map_values(|r: PathRecord| r@)
}

/// The ten fields of a record, in file order.
pub open spec fn record_fields(r: PathRecordView) -> Seq<Seq<char>> {
    seq![
        r.x,
        r.y,
        r.w,
        r.h,
        r.d1,
        r.d2,
        bool_text(r.rnd_end1),
        bool_text(r.rnd_end2),
        bool_text(r.hori),
        i8_text(r.layer),
    ]
}

/// A record as it is written: its fields joined by `,`.
pub open spec fn record_text(r: PathRecordView) -> Seq<char> {
    join_with(record_fields(r), ',')
}

/// A map as it is written: its records joined by `;`.
pub open spec fn map_text(rs: Seq<PathRecordView>) -> Seq<char> {
    join_with(rs.map_values(|r: PathRecordView| record_text(r)), ';')
}

/// Reading one record from its fields: at least ten fields (later ones are
/// ignored), the flags spelled `true`/`false` and the layer an `i8`.
pub open spec fn parse_record_spec(f: Seq<Seq<char>>) -> Option<PathRecordView> {
    if f.len() < 10 {
        None
    } else {
        match (parse_bool_spec(f[6]), parse_bool_spec(f[7]), parse_bool_spec(f[8]), parse_i8_spec(f[9])) {
            (Some(e1), Some(e2), Some(hori), Some(layer)) => Some(
                PathRecordView {
                    x: f[0],
                    y: f[1],
                    w: f[2],
                    h: f[3],
                    d1: f[4],
                    d2: f[5],
                    rnd_end1: e1,
                    rnd_end2: e2,
                    hori: hori,
                    layer: layer,
                },
            ),
            _ => None,
        }
    }
}

/// Reading every record, each from its piece split at `,`; nothing if one fails.
pub open spec fn parse_records_spec(pieces: Seq<Seq<char>>) -> Option<Seq<PathRecordView>>
    decreases pieces.len(),
{
    if pieces.len() == 0 {
        Some(Seq::<PathRecordView>::empty())
    } else {
        match (
            parse_records_spec(pieces.drop_last()),
            parse_record_spec(split_on(pieces.last(), ',')),
        ) {
            (Some(rs), Some(r)) => Some(rs.push(r)),
            _ => None,
        }
    }
}

/// Reading a map: split at `;`, then read each record.
pub open spec fn parse_map_spec(s: Seq<char>) -> Option<Seq<PathRecordView>> {
    parse_records_spec(split_on(s, ';'))
}

/// The numeric texts of a record hold neither separator.
pub open spec fn plain_record(r: PathRecordView) -> bool {
    &&& free_of(seq![r.x, r.y, r.w, r.h, r.d1, r.d2], ',')
    &&& free_of(seq![r.x, r.y, r.w, r.h, r.d1, r.d2], ';')
}

// ---------------------------------------------------------------------------
// Lemmas
// ---------------------------------------------------------------------------

/// Joining one more piece adds the separator and the piece.
proof fn lemma_join_push(p: Seq<Seq<char>>, q: Seq<char>, sep: char)
    ensures
        join_with(p.push(q), sep) == if p.len() == 0 {
            q
        } else {
            join_with(p, sep).push(sep) + q
        },
{
    assert(p.push(q).drop_last() =~= p);
    assert(p.push(q).last() == q);
    if p.len() == 0 {
        assert(p.push(q)[0] == q);
    }
}

/// A join holds a character only if a piece or the separator does.
proof fn lemma_join_free(p: Seq<Seq<char>>, sep: char, c: char)
    requires
        sep != c,
        free_of(p, c),
    ensures
        !join_with(p, sep).contains(c),
    decreases p.len(),
{
    if p.len() == 1 {
        assert(!p[0].contains(c));
    } else if p.len() > 1 {
        let front = p.drop_last();
        assert(free_of(front, c)) by {
            assert forall|i: int| 0 <= i < front.len() implies !(#[trigger] front[i]).contains(c) by {
                assert(front[i] == p[i]);
            }
        }
        lemma_join_free(front, sep, c);
        let j = join_with(front, sep).push(sep);
        let last = p.last();
        assert(!last.contains(c)) by {
            assert(last == p[p.len() - 1]);
        }
        let whole = j + last;
        if whole.contains(c) {
            let k = choose|k: int| 0 <= k < whole.len() && whole[k] == c;
            if k < j.len() - 1 {
                assert(join_with(front, sep)[k] == c);
            } else if k >= j.len() {
                assert(last[k - j.len()] == c);
            }
        }
    }
}

/// The spelling of a number holds no separator.
proof fn lemma_number_text_free(v: i8, c: char)
    requires
        c == ',' || c == ';',
    ensures
        !i8_text(v).contains(c),
{
    let n: nat = if v < 0 { (-v) as nat } else { v as nat };
    lemma_nat_text(n);
    let t = i8_text(v);
    if t.contains(c) {
        let k = choose|k: int| 0 <= k < t.len() && t[k] == c;
        if v < 0 {
            assert(t[k] == '-' || is_digit(nat_text(n)[k - 1]));
        } else {
            assert(is_digit(nat_text(n)[k]));
        }
    }
}

/// The fields of a plain record hold no separator.
proof fn lemma_fields_free(r: PathRecordView, c: char)
    requires
        plain_record(r),
        c == ',' || c == ';',
    ensures
        free_of(record_fields(r), c),
{
    let f = record_fields(r);
    let nums = seq![r.x, r.y, r.w, r.h, r.d1, r.d2];
    lemma_number_text_free(r.layer, c);
    assert forall|i: int| 0 <= i < f.len() implies !(#[trigger] f[i]).contains(c) by {
        if i < 6 {
            assert(f[i] == nums[i]);
        } else if i < 9 {
            let b = if i == 6 { r.rnd_end1 } else if i == 7 { r.rnd_end2 } else { r.hori };
            assert(f[i] == bool_text(b));
            if bool_text(b).contains(c) {
                let k = choose|k: int| 0 <= k < bool_text(b).len() && bool_text(b)[k] == c;
                assert(bool_text(b)[k] != c);
            }
        }
    }
}

/// Reading the text of a plain record gives it back.
proof fn lemma_record_roundtrip(r: PathRecordView)
    requires
        plain_record(r),
    ensures
        parse_record_spec(split_on(record_text(r), ',')) == Some(r),
{
    lemma_fields_free(r, ',');
    lemma_split_join(record_fields(r), ',');
    lemma_bool_roundtrip(r.rnd_end1);
    lemma_bool_roundtrip(r.rnd_end2);
    lemma_bool_roundtrip(r.hori);
    lemma_i8_roundtrip(r.layer);
}

/// Reading the records of a list of plain records gives them back.
proof fn lemma_records_roundtrip(rs: Seq<PathRecordView>)
    requires
        forall|i: int| 0 <= i < rs.len() ==> plain_record(#[trigger] rs[i]),
    ensures
        parse_records_spec(rs.map_values(|r: PathRecordView| record_text(r))) == Some(rs),
    decreases rs.len(),
{
    let pieces = rs.map_values(|r: PathRecordView| record_text(r));
    if rs.len() > 0 {
        let front = rs.drop_last();
        assert(pieces.drop_last() =~= front.map_values(|r: PathRecordView| record_text(r)));
        assert forall|i: int| 0 <= i < front.len() implies plain_record(#[trigger] front[i]) by {
            assert(front[i] == rs[i]);
        }
        lemma_records_roundtrip(front);
        assert(plain_record(rs[rs.len() - 1]));
        lemma_record_roundtrip(rs.last());
        assert(pieces.last() == record_text(rs.last()));
        assert(front.push(rs.last()) =~= rs);
    } else {
        assert(pieces.len() == 0);
    }
}

/// A map written to text and read back is the same map, when it has at least
/// one path and no numeric text holds a separator.
pub proof fn lemma_map_roundtrip(rs: Seq<PathRecordView>)
    requires
        rs.len() >= 1,
        forall|i: int| 0 <= i < rs.len() ==> plain_record(#[trigger] rs[i]),
    ensures
        parse_map_spec(map_text(rs)) == Some(rs),
{
    let pieces = rs.map_values(|r: PathRecordView| record_text(r));
    assert forall|i: int| 0 <= i < pieces.len() implies !(#[trigger] pieces[i]).contains(';') by {
        lemma_fields_free(rs[i], ';');
        lemma_join_free(record_fields(rs[i]), ',', ';');
    }
    lemma_split_join(pieces, ';');
    lemma_records_roundtrip(rs);
}

// ---------------------------------------------------------------------------
// Executable functions
// ---------------------------------------------------------------------------

/// The characters held by a vector of strings.
pub open spec fn strings_view(v: Seq<String>) -> Seq<Seq<char>> {
    v.map_values(|x: String| x@)
}

/// Joins strings with `sep` between neighbours.
fn join_strings(pieces: &Vec<String>, sep: char) -> (res: String)
    ensures
        res@ == join_with(strings_view(pieces@), sep),
{
    let mut res = String::new();
    let ghost pv = strings_view(pieces@);
    let mut i: usize = 0;
    while i < pieces.len()
        invariant
            i <= pieces.len(),
            pv == strings_view(pieces@),
            res@ == join_with(pv.take(i as int), sep),
        decreases pieces.len() - i,
    {
        proof {
            lemma_join_push(pv.take(i as int), pv[i as int], sep);
            assert(pv.take(i + 1) =~= pv.take(i as int).push(pv[i as int]));
        }
        if i > 0 {
            push_char(&mut res, sep);
        }
        res.append(pieces[i].as_str());
        i = i + 1;
    }
    assert(pv.take(pieces.len() as int) =~= pv);
    res
}

/// The text of one record.
fn record_to_string(r: &PathRecord) -> (res: String)
    ensures
        res@ == record_text(r@),
{
    let mut e1 = String::new();
    push_bool_text(&mut e1, r.rnd_end1);
    let mut e2 = String::new();
    push_bool_text(&mut e2, r.rnd_end2);
    let mut hori = String::new();
    push_bool_text(&mut hori, r.hori);
    let mut layer = String::new();
    push_i8_text(&mut layer, r.layer);
    let fields = vec![
        r.x.clone(),
        r.y.clone(),
        r.w.clone(),
        r.h.clone(),
        r.d1.clone(),
        r.d2.clone(),
        e1,
        e2,
        hori,
        layer,
    ];
    assert(strings_view(fields@) =~= record_fields(r@));
    join_strings(&fields, ',')
}

/// Writes a map as text: the records in order, separated by `;`, each record
/// its ten fields separated by `,`. An empty map is the empty text.
pub fn map_to_string(paths: &Vec<PathRecord>) -> (res: String)
    ensures
        res@ == map_text(records_view(paths@)),
{
    let ghost rs = records_view(paths@);
    let mut texts: Vec<String> = Vec::new();
    let mut i: usize = 0;
    while i < paths.len()
        invariant
            i <= paths.len(),
            rs == records_view(paths@),
            strings_view(texts@) == rs.take(i as int).map_values(|r: PathRecordView| record_text(r)),
        decreases paths.len() - i,
    {
        let t = record_to_string(&paths[i]);
        let ghost before = strings_view(texts@);
        texts.push(t);
        assert(strings_view(texts@) =~= before.push(t@));
        assert(rs.take(i + 1).map_values(|r: PathRecordView| record_text(r)) =~= rs.take(i as int).map_values(|r: PathRecordView| record_text(r)).push(record_text(rs[i as int])));
        i = i + 1;
    }
    assert(rs.take(paths.len() as int) =~= rs);
    join_strings(&texts, ';')
}

/// Reads one record from its fields, if it has at least ten and the flags
/// and the layer are well spelled.
fn parse_record(f: &Vec<Vec<char>>) -> (res: Option<PathRecord>)
    ensures
        match res {
            Some(r) => parse_record_spec(pieces_view(f@)) == Some(r@),
            None => parse_record_spec(pieces_view(f@)) is None,
        },
{
    let ghost fv = pieces_view(f@);
    if f.len() < 10 {
        return None;
    }
    let e1 = parse_bool(&f[6]);
    let e2 = parse_bool(&f[7]);
    let hori = parse_bool(&f[8]);
    let layer = parse_i8(&f[9]);
    assert(fv[6] == f@[6]@ && fv[7] == f@[7]@ && fv[8] == f@[8]@ && fv[9] == f@[9]@);
    match (e1, e2, hori, layer) {
        (Some(e1), Some(e2), Some(hori), Some(layer)) => {
            let r = PathRecord {
                x: string_of(&f[0]),
                y: string_of(&f[1]),
                w: string_of(&f[2]),
                h: string_of(&f[3]),
                d1: string_of(&f[4]),
                d2: string_of(&f[5]),
                rnd_end1: e1,
                rnd_end2: e2,
                hori: hori,
                layer: layer,
            };
            assert(fv[0] == f@[0]@ && fv[1] == f@[1]@ && fv[2] == f@[2]@);
            assert(fv[3] == f@[3]@ && fv[4] == f@[4]@ && fv[5] == f@[5]@);
            Some(r)
        },
        _ => None,
    }
}

/// Reads a map from one line of text: split at `;`, each piece split at `,`
/// into at least ten fields. Nothing when a piece has fewer than ten fields,
/// or a flag is not `true`/`false`, or the layer is not an `i8`.
pub fn parse_map(s: &str) -> (res: Option<Vec<PathRecord>>)
    ensures
        match res {
            Some(v) => parse_map_spec(s@) == Some(records_view(v@)),
            None => parse_map_spec(s@) is None,
        },
{
    let cs = chars_of(s);
    let pieces = split_chars(&cs, ';');
    let ghost pv = pieces_view(pieces@);
    let mut out: Vec<PathRecord> = Vec::new();
    let mut i: usize = 0;
    while i < pieces.len()
        invariant
            i <= pieces.len(),
            pv == pieces_view(pieces@),
            pv == split_on(s@, ';'),
            parse_records_spec(pv.take(i as int)) == Some(records_view(out@)),
        decreases pieces.len() - i,
    {
        let fields = split_chars(&pieces[i], ',');
        assert(pv.take(i + 1).drop_last() =~= pv.take(i as int));
        assert(pv.take(i + 1).last() == pieces@[i as int]@);
        match parse_record(&fields) {
            Some(r) => {
                let ghost before = records_view(out@);
                out.push(r);
                assert(records_view(out@) =~= before.push(r@));
            },
            None => {
                proof {
                    assert(pieces_view(fields@) == split_on(pv[i as int], ','));
                    assert(parse_record_spec(split_on(pv.take(i + 1).last(), ',')) is None);
                    assert(parse_records_spec(pv.take(i + 1)) is None);
                    lemma_parse_records_prefix(pv, i as int + 1);
                }
                return None;
            },
        }
        i = i + 1;
    }
    assert(pv.take(pieces.len() as int) =~= pv);
    Some(out)
}

/// Reading fails if reading a prefix fails.
proof fn lemma_parse_records_prefix(pv: Seq<Seq<char>>, k: int)
    requires
        0 <= k <= pv.len(),
        parse_records_spec(pv.take(k)) is None,
    ensures
        parse_records_spec(pv) is None,
    decreases pv.len() - k,
{
    if k < pv.len() {
        assert(pv.take(k + 1).drop_last() =~= pv.take(k));
        lemma_parse_records_prefix(pv, k + 1);
    } else {
        assert(pv.take(k) =~= pv);
    }
}

} // verus!
