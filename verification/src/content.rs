//! The canonical JSON text of a board definition and its content hash.
//!
//! A board is stored as compact JSON with its fields in declaration order;
//! the content hash of a board version is the lowercase hexadecimal SHA-256
//! digest of the UTF-8 bytes of that text.
use crate::domain::{BoardDefinition, BoardView, Cell, CellStatus, CellView, Edge, EdgeView};
use crate::text::{decimal, u64_to_decimal};
use sha2::Digest;
use vstd::prelude::*;
use vstd::string::*;
use vstd::utf8::encode_utf8;

verus! {

/// The lowercase hexadecimal digit for `d < 16`.
pub open spec fn hex_char(d: nat) -> char {
    if d < 10 {
        crate::text::digit_char(d)
    } else if d == 10 {
        'a'
    } else if d == 11 {
        'b'
    } else if d == 12 {
        'c'
    } else if d == 13 {
        'd'
    } else if d == 14 {
        'e'
    } else {
        'f'
    }
}

/// How one character appears inside a JSON string literal.
pub open spec fn json_escape_char(c: char) -> Seq<char> {
    let u = c as u32;
    if c == '"' {
        seq!['\\', '"']
    } else if c == '\\' {
        seq!['\\', '\\']
    } else if u == 8 {
        seq!['\\', 'b']
    } else if u == 9 {
        seq!['\\', 't']
    } else if u == 10 {
        seq!['\\', 'n']
    } else if u == 12 {
        seq!['\\', 'f']
    } else if u == 13 {
        seq!['\\', 'r']
    } else if u < 0x20 {
        seq!['\\', 'u', '0', '0', hex_char((u / 16) as nat), hex_char((u % 16) as nat)]
    } else {
        seq![c]
    }
}

/// The escaped body of a JSON string literal.
pub open spec fn json_escape(s: Seq<char>) -> Seq<char>
    decreases s.len(),
{
    if s.len() == 0 {
        seq![]
    } else {
        json_escape(s.drop_last()) + json_escape_char(s.last())
    }
}

/// A JSON string literal holding `s`.
pub open spec fn json_str(s: Seq<char>) -> Seq<char> {
    seq!['"'] + json_escape(s) + seq!['"']
}

/// The items joined by commas.
pub open spec fn join_commas(items: Seq<Seq<char>>) -> Seq<char>
    decreases items.len(),
{
    if items.len() == 0 {
        seq![]
    } else if items.len() == 1 {
        items[0]
    } else {
        join_commas(items.drop_last()) + seq![','] + items.last()
    }
}

pub open spec fn status_json(s: CellStatus) -> Seq<char> {
    match s {
        CellStatus::Active => "\"active\""@,
        CellStatus::Draft => "\"draft\""@,
    }
}

pub open spec fn bool_json(b: bool) -> Seq<char> {
    if b {
        "true"@
    } else {
        "false"@
    }
}

/// The JSON object of a cell.
pub open spec fn cell_json(c: CellView) -> Seq<char> {
    "{\"id\":"@ + json_str(c.id) + ",\"name\":"@ + json_str(c.name) + ",\"prompt\":"@ + json_str(
        c.prompt,
    ) + ",\"status\":"@ + status_json(c.status) + ",\"terminal\":"@ + bool_json(c.terminal)
        + ",\"request_memo\":"@ + json_str(c.request_memo) + "}"@
}

pub open spec fn guard_json(g: Option<Seq<char>>) -> Seq<char> {
    match g {
        Some(e) => "{\"expr\":"@ + json_str(e) + "}"@,
        None => "null"@,
    }
}

/// The JSON object of an edge.
pub open spec fn edge_json(e: EdgeView) -> Seq<char> {
    "{\"from\":"@ + json_str(e.from) + ",\"to\":"@ + json_str(e.to) + ",\"label\":"@ + json_str(
        e.label,
    ) + ",\"guard\":"@ + guard_json(e.guard) + "}"@
}

/// The canonical JSON text of a board.
pub open spec fn board_json(b: BoardView) -> Seq<char> {
    "{\"schema_version\":"@ + decimal(b.schema_version as nat) + ",\"start\":"@ + json_str(b.start)
        + ",\"cells\":["@ + join_commas(b.cells.map_values(|c: CellView| cell_json(c)))
        + "],\"edges\":["@ + join_commas(b.edges.map_values(|e: EdgeView| edge_json(e))) + "]}"@
}

/// The SHA-256 digest of `data`.
pub uninterp spec fn sha256_digest(data: Seq<u8>) -> Seq<u8>;

/// Two lowercase hexadecimal digits per byte.
pub open spec fn hex_lower(bytes: Seq<u8>) -> Seq<char>
    decreases bytes.len(),
{
    if bytes.len() == 0 {
        seq![]
    } else {
        hex_lower(bytes.drop_last()) + seq![
            hex_char((bytes.last() / 16) as nat),
            hex_char((bytes.last() % 16) as nat),
        ]
    }
}

/// The content hash of a board.
pub open spec fn content_hash_of(b: BoardView) -> Seq<char> {
    hex_lower(sha256_digest(encode_utf8(board_json(b))))
}

/// Calls `sha2::Sha256::digest` on `data`. It is believed to return the
/// SHA-256 digest of the bytes, which is 32 bytes long; the digest itself is
/// named, not stated.
#[verifier::external_body]
fn sha256(data: &[u8]) -> (r: Vec<u8>)
    ensures
        r@ == sha256_digest(data@),
        r@.len() == 32,
{
    sha2::Sha256::digest(data).to_vec()
}

fn hex_digit_str(d: u8) -> (r: &'static str)
    requires
        d < 16,
    ensures
        r@ == seq![hex_char(d as nat)],
{
    proof {
        reveal_strlit("0");
        reveal_strlit("1");
        reveal_strlit("2");
        reveal_strlit("3");
        reveal_strlit("4");
        reveal_strlit("5");
        reveal_strlit("6");
        reveal_strlit("7");
        reveal_strlit("8");
        reveal_strlit("9");
        reveal_strlit("a");
        reveal_strlit("b");
        reveal_strlit("c");
        reveal_strlit("d");
        reveal_strlit("e");
        reveal_strlit("f");
    }
    if d == 0 {
        "0"
    } else if d == 1 {
        "1"
    } else if d == 2 {
        "2"
    } else if d == 3 {
        "3"
    } else if d == 4 {
        "4"
    } else if d == 5 {
        "5"
    } else if d == 6 {
        "6"
    } else if d == 7 {
        "7"
    } else if d == 8 {
        "8"
    } else if d == 9 {
        "9"
    } else if d == 10 {
        "a"
    } else if d == 11 {
        "b"
    } else if d == 12 {
        "c"
    } else if d == 13 {
        "d"
    } else if d == 14 {
        "e"
    } else {
        "f"
    }
}

/// Lowercase hexadecimal text of `bytes`, two digits per byte.
pub fn to_hex_lower(bytes: &Vec<u8>) -> (r: String)
    ensures
        r@ == hex_lower(bytes@),
        r@.len() == 2 * bytes@.len(),
{
    let mut r = String::new();
    let mut i: usize = 0;
    while i < bytes.len()
        invariant
            i <= bytes.len(),
            r@ == hex_lower(bytes@.take(i as int)),
            r@.len() == 2 * i,
        decreases bytes.len() - i,
    {
        let b = bytes[i];
        r.append(hex_digit_str(b / 16));
        r.append(hex_digit_str(b % 16));
        proof {
            let t = bytes@.take(i + 1);
            assert(t.drop_last() =~= bytes@.take(i as int));
            assert(t.last() == b);
            assert(r@ =~= hex_lower(t));
        }
        i = i + 1;
    }
    assert(bytes@.take(bytes.len() as int) =~= bytes@);
    r
}

fn escape_char_str(c: char) -> (r: Option<&'static str>)
    ensures
        match r {
            Some(s) => s@ == json_escape_char(c),
            None => c != '"' && c != '\\' && c as u32 != 8 && c as u32 != 9 && c as u32 != 10
                && c as u32 != 12 && c as u32 != 13,
        },
{
    proof {
        reveal_strlit("\\\"");
        reveal_strlit("\\\\");
        reveal_strlit("\\b");
        reveal_strlit("\\t");
        reveal_strlit("\\n");
        reveal_strlit("\\f");
        reveal_strlit("\\r");
        assert("\\\""@ =~= seq!['\\', '"']);
        assert("\\\\"@ =~= seq!['\\', '\\']);
        assert("\\b"@ =~= seq!['\\', 'b']);
        assert("\\t"@ =~= seq!['\\', 't']);
        assert("\\n"@ =~= seq!['\\', 'n']);
        assert("\\f"@ =~= seq!['\\', 'f']);
        assert("\\r"@ =~= seq!['\\', 'r']);
    }
    let u = c as u32;
    if c == '"' {
        Some("\\\"")
    } else if c == '\\' {
        Some("\\\\")
    } else if u == 8 {
        Some("\\b")
    } else if u == 9 {
        Some("\\t")
    } else if u == 10 {
        Some("\\n")
    } else if u == 12 {
        Some("\\f")
    } else if u == 13 {
        Some("\\r")
    } else {
        None
    }
}

/// Appends the JSON string literal of `s` to `out`.
fn push_json_str(out: &mut String, s: &str)
    ensures
        final(out)@ == old(out)@ + json_str(s@),
{
    proof {
        reveal_strlit("\"");
        reveal_strlit("\\u00");
    }
    out.append("\"");
    let ghost base = out@;
    let n = s.unicode_len();
    let mut i: usize = 0;
    while i < n
        invariant
            n == s@.len(),
            i <= n,
            out@ == base + json_escape(s@.take(i as int)),
        decreases n - i,
    {
        let c = s.get_char(i);
        match escape_char_str(c) {
            Some(e) => out.append(e),
            None => {
                let u = c as u32;
                if u < 0x20 {
                    proof {
                        reveal_strlit("\\u00");
                        assert("\\u00"@ =~= seq!['\\', 'u', '0', '0']);
                    }
                    out.append("\\u00");
                    out.append(hex_digit_str((u / 16) as u8));
                    out.append(hex_digit_str((u % 16) as u8));
                } else {
                    let one = s.substring_char(i, i + 1);
                    proof {
                        assert(one@ =~= seq![c]);
                    }
                    out.append(one);
                }
            },
        }
        proof {
            let t = s@.take(i + 1);
            assert(t.drop_last() =~= s@.take(i as int));
            assert(t.last() == c);
            assert(out@ =~= base + json_escape(t));
        }
        i = i + 1;
    }
    assert(s@.take(n as int) =~= s@);
    out.append("\"");
    assert(out@ =~= old(out)@ + json_str(s@));
}

fn push_cell_json(out: &mut String, c: &Cell)
    ensures
        final(out)@ == old(out)@ + cell_json(c@),
{
    proof {
        reveal_strlit("\"active\"");
    }
    out.append("{\"id\":");
    push_json_str(out, c.id.as_str());
    out.append(",\"name\":");
    push_json_str(out, c.name.as_str());
    out.append(",\"prompt\":");
    push_json_str(out, c.prompt.as_str());
    out.append(",\"status\":");
    match c.status {
        CellStatus::Active => out.append("\"active\""),
        CellStatus::Draft => out.append("\"draft\""),
    }
    out.append(",\"terminal\":");
    if c.terminal {
        out.append("true");
    } else {
        out.append("false");
    }
    out.append(",\"request_memo\":");
    push_json_str(out, c.request_memo.as_str());
    out.append("}");
    assert(out@ =~= old(out)@ + cell_json(c@));
}

fn push_edge_json(out: &mut String, e: &Edge)
    ensures
        final(out)@ == old(out)@ + edge_json(e@),
{
    out.append("{\"from\":");
    push_json_str(out, e.from.as_str());
    out.append(",\"to\":");
    push_json_str(out, e.to.as_str());
    out.append(",\"label\":");
    push_json_str(out, e.label.as_str());
    out.append(",\"guard\":");
    match &e.guard {
        Some(g) => {
            out.append("{\"expr\":");
            push_json_str(out, g.expr.as_str());
            out.append("}");
        },
        None => out.append("null"),
    }
    out.append("}");
    assert(out@ =~= old(out)@ + edge_json(e@));
}

/// The canonical JSON text of a board, as it is stored and hashed.
pub fn board_to_json(def: &BoardDefinition) -> (r: String)
    ensures
        r@ == board_json(def@),
{
    proof {
        reveal_strlit(",");
    }
    let ghost b = def@;
    let mut out = String::from_str("{\"schema_version\":");
    let sv = u64_to_decimal(def.schema_version as u64);
    out.append(sv.as_str());
    out.append(",\"start\":");
    push_json_str(&mut out, def.start.as_str());
    out.append(",\"cells\":[");
    let ghost before_cells = out@;
    let ghost items = b.cells.map_values(|c: CellView| cell_json(c));
    let mut i: usize = 0;
    while i < def.cells.len()
        invariant
            b == def@,
            items == b.cells.map_values(|c: CellView| cell_json(c)),
            i <= def.cells.len(),
            out@ == before_cells + join_commas(items.take(i as int)),
        decreases def.cells.len() - i,
    {
        if i > 0 {
            out.append(",");
        }
        push_cell_json(&mut out, &def.cells[i]);
        proof {
            let t = items.take(i + 1);
            assert(t.drop_last() =~= items.take(i as int));
            assert(t.last() == cell_json(def.cells@[i as int]@));
            if i == 0 {
                assert(join_commas(items.take(0)) =~= seq![]);
            } else {
                reveal_strlit(",");
                assert(","@ =~= seq![',']);
            }
            assert(out@ =~= before_cells + join_commas(t));
        }
        i = i + 1;
    }
    assert(items.take(def.cells.len() as int) =~= items);
    out.append("],\"edges\":[");
    let ghost before_edges = out@;
    let ghost eitems = b.edges.map_values(|e: EdgeView| edge_json(e));
    let mut j: usize = 0;
    while j < def.edges.len()
        invariant
            b == def@,
            eitems == b.edges.map_values(|e: EdgeView| edge_json(e)),
            j <= def.edges.len(),
            out@ == before_edges + join_commas(eitems.take(j as int)),
        decreases def.edges.len() - j,
    {
        if j > 0 {
            out.append(",");
        }
        push_edge_json(&mut out, &def.edges[j]);
        proof {
            let t = eitems.take(j + 1);
            assert(t.drop_last() =~= eitems.take(j as int));
            assert(t.last() == edge_json(def.edges@[j as int]@));
            if j == 0 {
                assert(join_commas(eitems.take(0)) =~= seq![]);
            } else {
                reveal_strlit(",");
                assert(","@ =~= seq![',']);
            }
            assert(out@ =~= before_edges + join_commas(t));
        }
        j = j + 1;
    }
    assert(eitems.take(def.edges.len() as int) =~= eitems);
    out.append("]}");
    assert(out@ =~= board_json(b));
    out
}

/// The content hash of a board: lowercase hexadecimal SHA-256 of the UTF-8
/// bytes of its canonical JSON text (64 characters).
pub fn content_hash(def: &BoardDefinition) -> (r: String)
    ensures
        r@ == content_hash_of(def@),
        r@.len() == 64,
{
    let json = board_to_json(def);
    let bytes = json.as_str().as_bytes();
    let digest = sha256(bytes);
    to_hex_lower(&digest)
}

} // verus!
