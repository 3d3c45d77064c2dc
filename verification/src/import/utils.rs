//! What every kind of row shares: its identifier, the splitting of list
//! fields, and the division of rows into chunks.

use vstd::prelude::*;

verus! {

/// No chunk is made smaller than this, however many workers there are.
pub const MIN_CHUNK_SIZE: usize = 10000;

/// A row of a table: it knows the identifier under which it is stored.
pub trait Row {
    /// The identifier, as contracts speak of it.
    spec fn spec_id(&self) -> Seq<char>;

    /// The identifier under which the row is stored.
    fn get_id(&self) -> (id: String)
        ensures
            id@ == self.spec_id(),
    ;
}

/// The pieces of `s` between occurrences of `sep`: one more than there are
/// separators, so that the empty text has one empty piece.
pub open spec fn split_on(s: Seq<char>, sep: char) -> Seq<Seq<char>>
    decreases s.len(),
{
    if s.len() == 0 {
        seq![Seq::empty()]
    } else {
        let before = split_on(s.drop_last(), sep);
        if s.last() == sep {
            before.push(Seq::empty())
        } else {
            before.update(before.len() - 1, before.last().push(s.last()))
        }
    }
}

/// Splitting always yields a piece.
pub proof fn lemma_split_on_nonempty(s: Seq<char>, sep: char)
    ensures
        split_on(s, sep).len() >= 1,
    decreases s.len(),
{
    if s.len() > 0 {
        lemma_split_on_nonempty(s.drop_last(), sep);
    }
}

/// The texts of a list of strings.
pub open spec fn texts(strings: Seq<String>) -> Seq<Seq<char>> {
    strings.map_values(|s: String| s@)
}

/// Splits a text at every comma.
pub fn split_by_comma(str: &str) -> (pieces: Vec<String>)
    ensures
        texts(pieces@) == split_on(str@, ','),
{
    let len = str.unicode_len();
    let mut pieces: Vec<String> = Vec::new();
    let mut start: usize = 0;
    let mut at: usize = 0;
    proof {
        assert(str@.take(0) =~= Seq::empty());
        assert(str@.subrange(0, 0) =~= Seq::empty());
        assert(texts(pieces@).push(str@.subrange(0, 0)) =~= split_on(str@.take(0), ','));
    }
    while at < len
        invariant
            len == str@.len(),
            start <= at <= len,
            texts(pieces@).push(str@.subrange(start as int, at as int)) == split_on(str@.take(at as int), ','),
        decreases len - at,
    {
        let c = str.get_char(at);
        proof {
            let upto = str@.take(at + 1);
            assert(upto.drop_last() =~= str@.take(at as int));
            assert(upto.last() == c);
            lemma_split_on_nonempty(str@.take(at as int), ',');
        }
        if c == ',' {
            let piece = str.substring_char(start, at);
            let ghost before = texts(pieces@);
            let ghost from = start;
            pieces.push(piece.to_owned());
            start = at + 1;
            proof {
                assert(texts(pieces@) =~= before.push(str@.subrange(from as int, at as int)));
                assert(str@.subrange(start as int, at + 1) =~= Seq::empty());
            }
        } else {
            proof {
                let sofar = texts(pieces@).push(str@.subrange(start as int, at as int));
                assert(str@.subrange(start as int, at + 1) =~= str@.subrange(start as int, at as int).push(c));
                assert(texts(pieces@).push(str@.subrange(start as int, at + 1)) =~= sofar.update(
                    sofar.len() - 1,
                    sofar.last().push(c),
                ));
            }
        }
        at = at + 1;
    }
    let piece = str.substring_char(start, len);
    let ghost before = texts(pieces@);
    pieces.push(piece.to_owned());
    proof {
        assert(texts(pieces@) =~= before.push(str@.subrange(start as int, len as int)));
        assert(str@.take(len as int) =~= str@);
    }
    pieces
}

/// The size of the chunks into which `total` rows are divided for `workers`
/// workers: an equal share for each, but never less than the minimum.
pub fn chunk_size(total: usize, workers: usize) -> (size: usize)
    requires
        workers > 0,
    ensures
        size == chunk_size_of(total, workers),
{
    let share = total / workers;
    if share > MIN_CHUNK_SIZE {
        share
    } else {
        MIN_CHUNK_SIZE
    }
}

/// The character that writes a decimal digit.
pub open spec fn digit_char(d: nat) -> char {
    ((d + 48) as u8) as char
}

/// A number written in decimal, without leading zeros.
pub open spec fn decimal_text(n: nat) -> Seq<char>
    decreases n,
{
    if n < 10 {
        seq![digit_char(n)]
    } else {
        decimal_text(n / 10).push(digit_char(n % 10))
    }
}

/// The text of one decimal digit.
fn digit_str(d: u16) -> (text: &'static str)
    requires
        d < 10,
    ensures
        text@ == seq![digit_char(d as nat)],
{
    proof {
        reveal_strlit("0");
        reveal_strlit("1");
        reveal_strlit("2");
        reveal_strlit("3");
        reveal_strlit("4");
        reveal_strlit("5");
        reveal_strlit("6");
        reveal_strlit("7");
        reveal_strlit("8");
        reveal_strlit("9");
    }
    let text = if d == 0 {
        "0"
    } else if d == 1 {
        "1"
    } else if d == 2 {
        "2"
    } else if d == 3 {
        "3"
    } else if d == 4 {
        "4"
    } else if d == 5 {
        "5"
    } else if d == 6 {
        "6"
    } else if d == 7 {
        "7"
    } else if d == 8 {
        "8"
    } else {
        "9"
    };
    assert(text@ =~= seq![digit_char(d as nat)]);
    text
}

/// Writes a number in decimal.
pub fn decimal_string(n: u16) -> (text: String)
    ensures
        text@ == decimal_text(n as nat),
    decreases n,
{
    if n < 10 {
        digit_str(n).to_owned()
    } else {
        let front = decimal_string(n / 10);
        let last = digit_str(n % 10);
        let text = front.concat(last);
        proof {
            assert(text@ =~= decimal_text((n / 10) as nat).push(digit_char((n % 10) as nat)));
        }
        text
    }
}

/// The statement that defines a table anew.
pub open spec fn define_table_text(table: Seq<char>) -> Seq<char> {
    "DEFINE "@ + table + " DROP SCHEMALESS"@
}

/// The statement that defines a table anew.
pub fn define_table(table: &str) -> (statement: String)
    ensures
        statement@ == define_table_text(table@),
{
    "DEFINE ".to_owned().concat(table).concat(" DROP SCHEMALESS")
}

/// The chunks into which rows are divided for the workers, each as the
/// positions of its first row and of the row after its last.
pub fn plan_chunks(total: usize, workers: usize) -> (chunks: Vec<(usize, usize)>)
    requires
        workers > 0,
    ensures
        chunks@.len() >= 1,
        chunks@[0].0 == 0,
        chunks@[chunks@.len() - 1].1 == total,
        forall|k: int| 0 <= k < chunks@.len() - 1 ==> (#[trigger] chunks@[k]).1 == chunks@[k + 1].0,
        forall|k: int|
            0 <= k < chunks@.len() - 1 ==> (#[trigger] chunks@[k]).1 - chunks@[k].0 == chunk_size_of(total, workers),
        chunks@[chunks@.len() - 1].1 - chunks@[chunks@.len() - 1].0 <= chunk_size_of(total, workers),
        chunks@.len() > 1 ==> chunks@[chunks@.len() - 1].1 > chunks@[chunks@.len() - 1].0,
{
    let size = chunk_size(total, workers);
    let mut chunks: Vec<(usize, usize)> = Vec::new();
    let mut from: usize = 0;
    while total - from > size
        invariant
            size == chunk_size_of(total, workers),
            size >= MIN_CHUNK_SIZE,
            from <= total,
            chunks@.len() == 0 ==> from == 0,
            chunks@.len() > 0 ==> chunks@[0].0 == 0 && chunks@[chunks@.len() - 1].1 == from && from < total,
            forall|k: int| 0 <= k < chunks@.len() - 1 ==> (#[trigger] chunks@[k]).1 == chunks@[k + 1].0,
            forall|k: int| 0 <= k < chunks@.len() ==> (#[trigger] chunks@[k]).1 - chunks@[k].0 == size,
        decreases total - from,
    {
        chunks.push((from, from + size));
        from = from + size;
    }
    chunks.push((from, total));
    chunks
}

/// The chunk size as contracts speak of it: see [`chunk_size`].
pub open spec fn chunk_size_of(total: usize, workers: usize) -> usize {
    if total / workers > MIN_CHUNK_SIZE {
        total / workers
    } else {
        MIN_CHUNK_SIZE
    }
}

} // verus!
