//! A single book of a list, and the columns in which a list is shown.
use vstd::prelude::*;

use crate::text::{
    centre, chars_of, decimal, decimal_chars, join, lemma_join_step, parse_index, parse_usize,
    push_all, push_centred, repeat, slice_chars, string_of,
};

verus! {

/// One entry of a book list.
#[derive(Debug, Clone, PartialEq, Eq)]
pub struct Book {
    pub author: String,
    pub title: String,
    pub weight: u8,
}

/// The columns of the table that shows a book list.
#[derive(Debug, Clone, Copy, PartialEq, Eq, Structural)]
pub enum Header {
    Index,
    Author,
    Title,
    Weight,
}

/// The width of a column, in characters.
pub open spec fn width(h: Header) -> nat {
    match h {
        Header::Index => 4,
        Header::Author => 21,
        Header::Title => 40,
        Header::Weight => 10,
    }
}

/// The name by which a column is chosen for sorting; the index column has none.
pub open spec fn header_name(h: Header) -> Seq<char> {
    match h {
        Header::Author => "author"@,
        Header::Title => "title"@,
        Header::Weight => "weight"@,
        Header::Index => ""@,
    }
}

/// One row of the table: four cells, each centred in its column, between bars.
pub open spec fn table_row(
    index: Seq<char>,
    author: Seq<char>,
    title: Seq<char>,
    weight: Seq<char>,
) -> Seq<char> {
    seq!['|'] + centre(index, width(Header::Index)) + seq!['|'] + centre(author, width(Header::Author))
        + seq!['|'] + centre(title, width(Header::Title)) + seq!['|'] + centre(
        weight,
        width(Header::Weight),
    ) + seq!['|']
}

/// The `k`-th piece of `s` when it is cut into pieces of `w` characters.
pub open spec fn chunk(s: Seq<char>, w: nat, k: nat) -> Seq<char> {
    let from = if k * w <= s.len() {
        k * w
    } else {
        s.len()
    };
    let to = if k * w + w <= s.len() {
        k * w + w
    } else {
        s.len()
    };
    s.subrange(from as int, to as int)
}

/// How many pieces of `w` characters it takes to hold `n` characters.
pub open spec fn pieces(n: nat, w: nat) -> nat
    recommends
        w > 0,
{
    if n % w == 0 {
        n / w
    } else {
        n / w + 1
    }
}

/// How many rows the block of a book takes: enough for the longer of its
/// wrapped author and title, and at least one.
pub open spec fn block_len(author: Seq<char>, title: Seq<char>) -> nat {
    let a = pieces(author.len(), width(Header::Author));
    let t = pieces(title.len(), width(Header::Title));
    let m = if a >= t {
        a
    } else {
        t
    };
    if m == 0 {
        1
    } else {
        m
    }
}

/// Row `k` of the block of a book shown at position `index`: the index and the
/// weight on the first row only, and the `k`-th piece of author and title.
pub open spec fn block_row(
    author: Seq<char>,
    title: Seq<char>,
    weight: nat,
    index: nat,
    k: nat,
) -> Seq<char> {
    table_row(
        if k == 0 {
            decimal(index)
        } else {
            Seq::empty()
        },
        chunk(author, width(Header::Author), k),
        chunk(title, width(Header::Title), k),
        if k == 0 {
            decimal(weight)
        } else {
            Seq::empty()
        },
    )
}

/// The rows of the block of a book shown at position `index`.
pub open spec fn block_rows(author: Seq<char>, title: Seq<char>, weight: nat, index: nat) -> Seq<
    Seq<char>,
> {
    Seq::new(block_len(author, title), |k: int| block_row(author, title, weight, index, k as nat))
}

/// The text of the block of a book shown at position `index`.
pub open spec fn block(author: Seq<char>, title: Seq<char>, weight: nat, index: nat) -> Seq<char> {
    join(block_rows(author, title, weight, index), seq!['\n'])
}

impl Book {
    pub fn new(author: String, title: String, weight: u8) -> (r: Book)
        ensures
            r.author == author,
            r.title == title,
            r.weight == weight,
    {
        Book { author, title, weight }
    }

    /// A book from the three stored fields; nothing when the weight is not a
    /// number from 0 to 255, read as std reads a `u8`.
    pub fn from_fields(author: &str, title: &str, weight: &str) -> (r: Option<Book>)
        ensures
            match parse_usize(weight@) {
                Some(n) => if n <= 255 {
                    r matches Some(b) && b.author@ == author@ && b.title@ == title@ && b.weight
                        == n
                } else {
                    r is None
                },
                None => r is None,
            },
    {
        match parse_index(weight) {
            Some(n) => {
                if n <= 255 {
                    Some(Book { author: author.to_owned(), title: title.to_owned(), weight: n as u8 })
                } else {
                    None
                }
            },
            None => None,
        }
    }

    /// The three fields as text, in the order author, title, weight.
    pub fn as_string_array(&self) -> (r: [String; 3])
        ensures
            r[0]@ == self.author@,
            r[1]@ == self.title@,
            r[2]@ == decimal(self.weight as nat),
    {
        let w = decimal_chars(self.weight as usize);
        [self.author.clone(), self.title.clone(), string_of(&w)]
    }

    /// The names of the stored fields, in the order of `as_string_array`.
    pub fn headers() -> (r: [&'static str; 3])
        ensures
            r[0]@ == "author"@,
            r[1]@ == "title"@,
            r[2]@ == "weight"@,
    {
        Header::headers()
    }

    /// Sets the weight as given; keeping it in range is the caller's part.
    pub fn change_weight(&mut self, new_weight: u8)
        ensures
            final(self).weight == new_weight,
            final(self).author == old(self).author,
            final(self).title == old(self).title,
    {
        self.weight = new_weight;
    }

    /// The book as `author: .., title: .., weight: ..`.
    pub fn to_string(&self) -> (r: String)
        ensures
            r@ == "author: "@ + self.author@ + ", title: "@ + self.title@ + ", weight: "@ + decimal(
                self.weight as nat,
            ),
    {
        let mut out: Vec<char> = Vec::new();
        push_all(&mut out, &chars_of("author: "));
        push_all(&mut out, &chars_of(self.author.as_str()));
        push_all(&mut out, &chars_of(", title: "));
        push_all(&mut out, &chars_of(self.title.as_str()));
        push_all(&mut out, &chars_of(", weight: "));
        push_all(&mut out, &decimal_chars(self.weight as usize));
        string_of(&out)
    }

    /// The rows that show this book at position `index` of a table, author and
    /// title wrapped onto further rows where they are wider than their columns.
    pub fn print_string(&self, index: usize) -> (r: String)
        ensures
            r@ == block(self.author@, self.title@, self.weight as nat, index as nat),
    {
        let author = chars_of(self.author.as_str());
        let title = chars_of(self.title.as_str());
        let out = block_chars(&author, &title, self.weight, index);
        string_of(&out)
    }
}

/// Appends one table row to `out`.
pub(crate) fn push_row(
    out: &mut Vec<char>,
    index: &Vec<char>,
    author: &Vec<char>,
    title: &Vec<char>,
    weight: &Vec<char>,
)
    ensures
        final(out)@ == old(out)@ + table_row(index@, author@, title@, weight@),
{
    out.push('|');
    push_centred(out, index, 4);
    out.push('|');
    push_centred(out, author, 21);
    out.push('|');
    push_centred(out, title, 40);
    out.push('|');
    push_centred(out, weight, 10);
    out.push('|');
    assert(final(out)@ =~= old(out)@ + table_row(index@, author@, title@, weight@));
}

/// How many pieces of `w` characters it takes to hold `n` characters.
fn pieces_of(n: usize, w: usize) -> (r: usize)
    requires
        w > 1,
    ensures
        r == pieces(n as nat, w as nat),
{
    if n % w == 0 {
        n / w
    } else {
        assert(n / w < n || n == 0) by (nonlinear_arith)
            requires
                w > 1,
        ;
        n / w + 1
    }
}

/// The next cut point after `pos` when `s` is cut into pieces of `w`.
fn next_cut(len: usize, pos: usize, w: usize) -> (r: usize)
    requires
        pos <= len,
    ensures
        r == if pos + w <= len {
            pos + w
        } else {
            len as int
        },
{
    if len - pos >= w {
        pos + w
    } else {
        len
    }
}

/// The characters of the block of a book.
pub(crate) fn block_chars(author: &Vec<char>, title: &Vec<char>, weight: u8, index: usize) -> (r: Vec<char>)
    ensures
        r@ == block(author@, title@, weight as nat, index as nat),
{
    let a = pieces_of(author.len(), 21);
    let t = pieces_of(title.len(), 40);
    let m = if a >= t {
        a
    } else {
        t
    };
    let lines = if m == 0 {
        1
    } else {
        m
    };
    let ghost rows = block_rows(author@, title@, weight as nat, index as nat);
    assert(rows.len() == lines);
    let mut out: Vec<char> = Vec::new();
    let mut k: usize = 0;
    let mut a_pos: usize = 0;
    let mut t_pos: usize = 0;
    let empty: Vec<char> = Vec::new();
    while k < lines
        invariant
            k <= lines,
            rows.len() == lines,
            rows == block_rows(author@, title@, weight as nat, index as nat),
            a_pos == if k * 21 <= author.len() {
                k * 21
            } else {
                author.len() as int
            },
            t_pos == if k * 40 <= title.len() {
                k * 40
            } else {
                title.len() as int
            },
            empty@ == Seq::<char>::empty(),
            out@ == join(rows.take(k as int), seq!['\n']),
        decreases lines - k,
    {
        proof {
            lemma_join_step(rows, seq!['\n'], k as int);
        }
        if k > 0 {
            out.push('\n');
        }
        let a_next = next_cut(author.len(), a_pos, 21);
        let t_next = next_cut(title.len(), t_pos, 40);
        let a_piece = slice_chars(author, a_pos, a_next);
        let t_piece = slice_chars(title, t_pos, t_next);
        assert(a_piece@ == chunk(author@, 21, k as nat)) by (nonlinear_arith)
            requires
                a_pos == if k * 21 <= author.len() {
                    k * 21
                } else {
                    author.len() as int
                },
                a_next == if a_pos + 21 <= author.len() {
                    a_pos + 21
                } else {
                    author.len() as int
                },
                a_piece@ == author@.subrange(a_pos as int, a_next as int),
        ;
        assert(t_piece@ == chunk(title@, 40, k as nat)) by (nonlinear_arith)
            requires
                t_pos == if k * 40 <= title.len() {
                    k * 40
                } else {
                    title.len() as int
                },
                t_next == if t_pos + 40 <= title.len() {
                    t_pos + 40
                } else {
                    title.len() as int
                },
                t_piece@ == title@.subrange(t_pos as int, t_next as int),
        ;
        if k == 0 {
            push_row(&mut out, &decimal_chars(index), &a_piece, &t_piece, &decimal_chars(weight as usize));
        } else {
            push_row(&mut out, &empty, &a_piece, &t_piece, &empty);
        }
        assert(out@ =~= join(rows.take(k + 1), seq!['\n']));
        k += 1;
        a_pos = a_next;
        t_pos = t_next;
    }
    assert(rows.take(lines as int) =~= rows);
    out
}

impl Header {
    /// The column's name, as used to choose a sort order.
    pub fn value(&self) -> (r: &'static str)
        ensures
            r@ == header_name(*self),
    {
        match self {
            Header::Author => "author",
            Header::Title => "title",
            Header::Weight => "weight",
            Header::Index => "",
        }
    }

    /// The column that a sort order names.
    pub fn from(s: &str) -> (r: Result<Header, &'static str>)
        ensures
            s@ == "author"@ <==> r == Ok::<Header, &'static str>(Header::Author),
            s@ == "title"@ <==> r == Ok::<Header, &'static str>(Header::Title),
            s@ == "weight"@ <==> r == Ok::<Header, &'static str>(Header::Weight),
            r is Err <==> (s@ != "author"@ && s@ != "title"@ && s@ != "weight"@),
            r matches Err(e) ==> e@ == "Invalid sort column choice"@,
    {
        proof {
            reveal_strlit("author");
            reveal_strlit("title");
            reveal_strlit("weight");
            assert("title"@.len() != "author"@.len());
            assert("title"@.len() != "weight"@.len());
            assert("weight"@[0] != "author"@[0]);
        }
        let given = s.to_owned();
        if given == "author".to_owned() {
            Ok(Header::Author)
        } else if given == "title".to_owned() {
            Ok(Header::Title)
        } else if given == "weight".to_owned() {
            Ok(Header::Weight)
        } else {
            Err("Invalid sort column choice")
        }
    }

    /// The names of the stored fields, in the order in which a list stores them.
    pub fn headers() -> (r: [&'static str; 3])
        ensures
            r[0]@ == "author"@,
            r[1]@ == "title"@,
            r[2]@ == "weight"@,
    {
        ["author", "title", "weight"]
    }

    /// The widths of the four columns, in the order index, author, title, weight.
    pub fn lens() -> (r: [usize; 4])
        ensures
            r[0] == width(Header::Index),
            r[1] == width(Header::Author),
            r[2] == width(Header::Title),
            r[3] == width(Header::Weight),
    {
        [
            Header::Index.print_len(),
            Header::Author.print_len(),
            Header::Title.print_len(),
            Header::Weight.print_len(),
        ]
    }

    /// The width of this column when a list is shown: the four add up to 75, so
    /// that a row with its five bars takes 80 characters.
    pub fn print_len(&self) -> (r: usize)
        ensures
            r == width(*self),
    {
        match self {
            Header::Index => 4,
            Header::Author => 21,
            Header::Title => 40,
            Header::Weight => 10,
        }
    }
}

/// Cell `c` of a table row, read by position: 0 is the index, 1 the author,
/// 2 the title, 3 the weight.
pub open spec fn cell(row: Seq<char>, c: int) -> Seq<char> {
    if c == 0 {
        row.subrange(1, 5)
    } else if c == 1 {
        row.subrange(6, 27)
    } else if c == 2 {
        row.subrange(28, 68)
    } else {
        row.subrange(69, 79)
    }
}

/// `s` without its leading spaces.
pub open spec fn trim_start(s: Seq<char>) -> Seq<char>
    decreases s.len(),
{
    if s.len() > 0 && s[0] == ' ' {
        trim_start(s.drop_first())
    } else {
        s
    }
}

/// `s` without its trailing spaces.
pub open spec fn trim_end(s: Seq<char>) -> Seq<char>
    decreases s.len(),
{
    if s.len() > 0 && s.last() == ' ' {
        trim_end(s.drop_last())
    } else {
        s
    }
}

/// `s` without the spaces at either end.
pub open spec fn trim(s: Seq<char>) -> Seq<char> {
    trim_end(trim_start(s))
}

/// The text of column `c` read back from rows: each row's cell with the
/// padding taken off, the rows' pieces put together in order.
pub open spec fn column_text(rows: Seq<Seq<char>>, c: int) -> Seq<char>
    decreases rows.len(),
{
    if rows.len() == 0 {
        Seq::empty()
    } else {
        column_text(rows.drop_last(), c) + trim(cell(rows.last(), c))
    }
}

/// No piece of `s`, cut every `w` characters, starts or ends with a space,
/// so that padding around a piece can be told from the piece itself.
pub open spec fn pieces_unpadded(s: Seq<char>, w: nat) -> bool {
    forall|k: nat|
        #![trigger chunk(s, w, k)]
        chunk(s, w, k).len() > 0 ==> chunk(s, w, k)[0] != ' ' && chunk(s, w, k).last() != ' '
}

proof fn lemma_trim_start_spaces(n: nat, t: Seq<char>)
    ensures
        trim_start(repeat(' ', n) + t) == trim_start(t),
    decreases n,
{
    if n > 0 {
        assert((repeat(' ', n) + t).drop_first() =~= repeat(' ', (n - 1) as nat) + t);
        lemma_trim_start_spaces((n - 1) as nat, t);
    } else {
        assert(repeat(' ', n) + t =~= t);
    }
}

proof fn lemma_trim_end_spaces(t: Seq<char>, n: nat)
    ensures
        trim_end(t + repeat(' ', n)) == trim_end(t),
    decreases n,
{
    if n > 0 {
        assert((t + repeat(' ', n)).drop_last() =~= t + repeat(' ', (n - 1) as nat));
        lemma_trim_end_spaces(t, (n - 1) as nat);
    } else {
        assert(t + repeat(' ', n) =~= t);
    }
}

/// Centring pads with spaces only, so trimming gives back a text that fits
/// and has no space at either end.
proof fn lemma_trim_centre(s: Seq<char>, w: nat)
    requires
        s.len() <= w,
        s.len() > 0 ==> s[0] != ' ' && s.last() != ' ',
    ensures
        trim(centre(s, w)) == s,
{
    if s.len() == w {
        assert(s.subrange(0, w as int) =~= s);
    } else {
        let pad = (w - s.len()) as nat;
        let l = repeat(' ', pad / 2);
        let r = repeat(' ', (pad - pad / 2) as nat);
        assert(centre(s, w) == l + (s + r)) by {
            assert(l + s + r =~= l + (s + r));
        }
        lemma_trim_start_spaces(pad / 2, s + r);
        if s.len() > 0 {
            assert((s + r)[0] == s[0]);
            assert(trim_start(s + r) == s + r);
            lemma_trim_end_spaces(s, (pad - pad / 2) as nat);
        } else {
            assert(s + r =~= Seq::<char>::empty() + r);
            lemma_trim_start_spaces((pad - pad / 2) as nat, Seq::<char>::empty());
            assert(Seq::<char>::empty() + r =~= r + Seq::<char>::empty());
            assert(r + Seq::<char>::empty() =~= r);
        }
    }
}

proof fn lemma_row_cells(index: Seq<char>, author: Seq<char>, title: Seq<char>, weight: Seq<char>)
    ensures
        cell(table_row(index, author, title, weight), 1) == centre(author, 21),
        cell(table_row(index, author, title, weight), 2) == centre(title, 40),
        cell(table_row(index, author, title, weight), 3) == centre(weight, 10),
{
    let row = table_row(index, author, title, weight);
    assert(centre(index, 4).len() == 4);
    assert(centre(author, 21).len() == 21);
    assert(centre(title, 40).len() == 40);
    assert(centre(weight, 10).len() == 10);
    assert(row.subrange(6, 27) =~= centre(author, 21));
    assert(row.subrange(28, 68) =~= centre(title, 40));
    assert(row.subrange(69, 79) =~= centre(weight, 10));
}

/// Where the first `k` pieces of `w` characters of `s` end.
pub open spec fn cut(s: Seq<char>, w: nat, k: nat) -> int {
    if k * w <= s.len() {
        (k * w) as int
    } else {
        s.len() as int
    }
}

proof fn lemma_chunk_append(s: Seq<char>, w: nat, k: nat)
    ensures
        s.subrange(0, cut(s, w, k)) + chunk(s, w, k) == s.subrange(0, cut(s, w, k + 1)),
{
    assert((k + 1) * w == k * w + w) by (nonlinear_arith);
    assert(s.subrange(0, cut(s, w, k)) + chunk(s, w, k) =~= s.subrange(0, cut(s, w, k + 1)));
}

/// Reading back row `k` of a block gives the `k`-th pieces of author and title.
proof fn lemma_row_pieces(author: Seq<char>, title: Seq<char>, weight: nat, index: nat, k: nat)
    requires
        pieces_unpadded(author, 21),
        pieces_unpadded(title, 40),
    ensures
        trim(cell(block_row(author, title, weight, index, k), 1)) == chunk(author, 21, k),
        trim(cell(block_row(author, title, weight, index, k), 2)) == chunk(title, 40, k),
{
    let a = chunk(author, 21, k);
    let t = chunk(title, 40, k);
    lemma_row_cells(
        if k == 0 {
            decimal(index)
        } else {
            Seq::empty()
        },
        a,
        t,
        if k == 0 {
            decimal(weight)
        } else {
            Seq::empty()
        },
    );
    lemma_trim_centre(a, 21);
    lemma_trim_centre(t, 40);
}

/// The author and title columns of the first `m` rows of a block give back
/// the first `m` pieces of author and title.
proof fn lemma_columns_prefix(author: Seq<char>, title: Seq<char>, weight: nat, index: nat, m: nat)
    requires
        pieces_unpadded(author, 21),
        pieces_unpadded(title, 40),
    ensures
        column_text(Seq::new(m, |k: int| block_row(author, title, weight, index, k as nat)), 1)
            == author.subrange(0, cut(author, 21, m)),
        column_text(Seq::new(m, |k: int| block_row(author, title, weight, index, k as nat)), 2)
            == title.subrange(0, cut(title, 40, m)),
    decreases m,
{
    let rows = Seq::new(m, |k: int| block_row(author, title, weight, index, k as nat));
    if m == 0 {
        assert(author.subrange(0, 0) =~= Seq::<char>::empty());
        assert(title.subrange(0, 0) =~= Seq::<char>::empty());
    } else {
        let k = (m - 1) as nat;
        assert(rows.drop_last() =~= Seq::new(
            k,
            |j: int| block_row(author, title, weight, index, j as nat),
        ));
        lemma_columns_prefix(author, title, weight, index, k);
        assert(rows.last() == block_row(author, title, weight, index, k));
        lemma_row_pieces(author, title, weight, index, k);
        lemma_chunk_append(author, 21, k);
        lemma_chunk_append(title, 40, k);
    }
}

/// Table round trip: reading back the rows of a book's block cell by cell,
/// with the centring spaces taken off and the wrapped pieces put together,
/// gives the book's author, title and weight exactly. This needs the wrapped
/// pieces to have no space at either end, as padding could not be told apart
/// from them otherwise.
pub proof fn lemma_block_round_trip(author: Seq<char>, title: Seq<char>, weight: u8, index: nat)
    requires
        pieces_unpadded(author, 21),
        pieces_unpadded(title, 40),
    ensures
        column_text(block_rows(author, title, weight as nat, index), 1) == author,
        column_text(block_rows(author, title, weight as nat, index), 2) == title,
        trim(cell(block_rows(author, title, weight as nat, index)[0], 3)) == decimal(weight as nat),
{
    let m = block_len(author, title);
    lemma_columns_prefix(author, title, weight as nat, index, m);
    assert(m * 21 >= author.len()) by (nonlinear_arith)
        requires
            m >= pieces(author.len(), 21),
            pieces(author.len(), 21) == if author.len() % 21 == 0 { author.len() / 21 } else { author.len() / 21 + 1 },
    ;
    assert(m * 40 >= title.len()) by (nonlinear_arith)
        requires
            m >= pieces(title.len(), 40),
            pieces(title.len(), 40) == if title.len() % 40 == 0 { title.len() / 40 } else { title.len() / 40 + 1 },
    ;
    assert(author.subrange(0, author.len() as int) =~= author);
    assert(title.subrange(0, title.len() as int) =~= title);
    lemma_decimal_short(weight as nat);
    lemma_row_cells(
        decimal(index),
        chunk(author, 21, 0),
        chunk(title, 40, 0),
        decimal(weight as nat),
    );
    lemma_trim_centre(decimal(weight as nat), 10);
}

/// A weight has at most three digits, none of them a space.
proof fn lemma_decimal_short(n: nat)
    requires
        n < 256,
    ensures
        decimal(n).len() <= 3,
        decimal(n).len() > 0,
        forall|i: int| 0 <= i < decimal(n).len() ==> #[trigger] decimal(n)[i] != ' ',
{
    reveal_with_fuel(decimal, 3);
}

} // verus!
