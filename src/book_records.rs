//! A book list: its books in order, and the operations on them.
use vstd::prelude::*;

use crate::book::{block, block_chars, table_row, Book, Header};
use crate::text::{chars_of, join, lemma_join_step, push_all, push_repeat, repeat, string_of};
use crate::order::{key_less, key_lt, lemma_key_order};
use crate::search::{resolve, IndexSearch};
use rand::seq::SliceRandom;

verus! {

/// The largest weight that a change of weight sets.
pub const MAX_WEIGHT: u8 = 10;

/// An ordered list of books.
#[derive(Debug, Clone, PartialEq, Eq)]
pub struct BookRecords {
    records: Vec<Book>,
}

impl View for BookRecords {
    type V = Seq<Book>;

    closed spec fn view(&self) -> Seq<Book> {
        self.records@
    }
}

/// `b` with its weight set to `w`.
pub open spec fn with_weight(b: Book, w: u8) -> Book {
    Book { author: b.author, title: b.title, weight: w }
}

/// Whether a book has `input` as its title.
pub open spec fn titled(input: Seq<char>) -> spec_fn(Book) -> bool {
    |b: Book| b.title@ == input
}

/// The position of the book that `input` names: an index when it reads as one,
/// else the first book with that title.
pub open spec fn book_position(books: Seq<Book>, input: Seq<char>) -> Option<int> {
    resolve(books, input, titled(input))
}

/// The sum of the weights.
pub open spec fn total_weight(books: Seq<Book>) -> nat
    decreases books.len(),
{
    if books.len() == 0 {
        0
    } else {
        total_weight(books.drop_last()) + books.last().weight as nat
    }
}

/// The draw pool: each book's position, as many times as its weight, in order.
pub open spec fn pool(books: Seq<Book>) -> Seq<usize>
    decreases books.len(),
{
    if books.len() == 0 {
        Seq::empty()
    } else {
        pool(books.drop_last()) + Seq::new(
            books.last().weight as nat,
            |j: int| (books.len() - 1) as usize,
        )
    }
}

/// How many times `x` occurs in `s`.
pub open spec fn count(s: Seq<usize>, x: usize) -> nat
    decreases s.len(),
{
    if s.len() == 0 {
        0
    } else {
        count(s.drop_last(), x) + if s.last() == x {
            1nat
        } else {
            0nat
        }
    }
}

proof fn lemma_count_concat(a: Seq<usize>, b: Seq<usize>, x: usize)
    ensures
        count(a + b, x) == count(a, x) + count(b, x),
    decreases b.len(),
{
    if b.len() == 0 {
        assert(a + b =~= a);
    } else {
        assert((a + b).drop_last() =~= a + b.drop_last());
        lemma_count_concat(a, b.drop_last(), x);
    }
}

proof fn lemma_count_repeat(n: nat, v: usize, x: usize)
    ensures
        count(Seq::new(n, |j: int| v), x) == if v == x {
            n
        } else {
            0
        },
    decreases n,
{
    if n > 0 {
        assert(Seq::new(n, |j: int| v).drop_last() =~= Seq::new((n - 1) as nat, |j: int| v));
        lemma_count_repeat((n - 1) as nat, v, x);
    }
}

/// Every entry of the pool is the position of a book of positive weight.
pub proof fn lemma_pool_entries(books: Seq<Book>, k: int)
    requires
        0 <= k < pool(books).len(),
        books.len() <= usize::MAX,
    ensures
        pool(books)[k] < books.len(),
        books[pool(books)[k] as int].weight > 0,
    decreases books.len(),
{
    let rest = books.drop_last();
    if k < pool(rest).len() {
        lemma_pool_entries(rest, k);
    }
}

/// Draw-pool law: position `i` occurs in the pool exactly as many times as
/// the book there weighs, and the pool is as long as the weights' sum, so a
/// uniform draw from it picks position `i` with probability weight over total
/// weight; a book of weight 0 is never picked.
pub proof fn lemma_pool_counts(books: Seq<Book>, i: int)
    requires
        0 <= i < books.len(),
        books.len() <= usize::MAX,
    ensures
        count(pool(books), i as usize) == books[i].weight,
        pool(books).len() == total_weight(books),
    decreases books.len(),
{
    let rest = books.drop_last();
    let last = (books.len() - 1) as usize;
    lemma_count_concat(pool(rest), Seq::new(books.last().weight as nat, |j: int| last), i as usize);
    lemma_count_repeat(books.last().weight as nat, last, i as usize);
    if i < rest.len() {
        lemma_pool_counts(rest, i);
    } else {
        lemma_pool_absent(rest, i);
    }
    lemma_pool_len(books);
}

/// No-selection law: the weights sum to 0 exactly when every book weighs 0,
/// an empty list included; `select_random_book` then gives nothing.
pub proof fn lemma_total_weight_zero(books: Seq<Book>)
    ensures
        total_weight(books) == 0 <==> forall|i: int| 0 <= i < books.len() ==> #[trigger] books[i].weight
            == 0,
    decreases books.len(),
{
    if books.len() > 0 {
        let rest = books.drop_last();
        lemma_total_weight_zero(rest);
        assert forall|i: int| 0 <= i < rest.len() implies rest[i] == #[trigger] books[i] by {}
    }
}

proof fn lemma_pool_len(books: Seq<Book>)
    ensures
        pool(books).len() == total_weight(books),
    decreases books.len(),
{
    if books.len() > 0 {
        lemma_pool_len(books.drop_last());
    }
}

proof fn lemma_pool_absent(books: Seq<Book>, i: int)
    requires
        i >= books.len(),
        i <= usize::MAX,
        books.len() <= usize::MAX,
    ensures
        count(pool(books), i as usize) == 0,
    decreases books.len(),
{
    if books.len() > 0 {
        let rest = books.drop_last();
        let last = (books.len() - 1) as usize;
        lemma_count_concat(pool(rest), Seq::new(books.last().weight as nat, |j: int| last), i as usize);
        lemma_count_repeat(books.last().weight as nat, last, i as usize);
        lemma_pool_absent(rest, i);
    }
}

/// A rule across the whole table, drawn with `c`.
pub open spec fn rule(c: char) -> Seq<char> {
    repeat(c, 80)
}

/// The row that names the columns.
pub open spec fn header_row() -> Seq<char> {
    table_row(Seq::empty(), "author"@, "title"@, "weight"@)
}

/// The blocks of the books, each shown with its position.
pub open spec fn book_blocks(books: Seq<Book>) -> Seq<Seq<char>> {
    Seq::new(
        books.len(),
        |i: int| block(books[i].author@, books[i].title@, books[i].weight as nat, i as nat),
    )
}

/// The whole table: a rule, the header row, a double rule, the blocks of the
/// books with a rule between each two, and a closing rule.
pub open spec fn table(books: Seq<Book>) -> Seq<char> {
    rule('-') + seq!['\n'] + header_row() + seq!['\n'] + rule('=') + seq!['\n'] + join(
        book_blocks(books),
        seq!['\n'] + rule('-') + seq!['\n'],
    ) + seq!['\n'] + rule('-')
}

/// `p` tells for each position of `new` the position of the same book in
/// `old`, and no two positions come from the same one.
pub open spec fn is_rearrangement(old: Seq<Book>, new: Seq<Book>, p: Seq<int>) -> bool {
    &&& old.len() == new.len()
    &&& p.len() == new.len()
    &&& forall|k: int| 0 <= k < p.len() ==> 0 <= #[trigger] p[k] < old.len() && new[k] == old[p[k]]
    &&& forall|k1: int, k2: int|
        0 <= k1 < p.len() && 0 <= k2 < p.len() && k1 != k2 ==> #[trigger] p[k1] != #[trigger] p[k2]
}

/// The first `m` books of `s` are in the order of column `h`.
pub open spec fn sorted_prefix(s: Seq<Book>, h: Header, m: int) -> bool {
    forall|a: int, b: int| 0 <= a < b < m ==> !#[trigger] key_lt(h, s[b], s[a])
}

/// Among the first `m` books of `s`, two that `p` shows in swapped order
/// are strictly ordered by column `h`.
pub open spec fn stable_prefix(s: Seq<Book>, p: Seq<int>, h: Header, m: int) -> bool {
    forall|a: int, b: int| 0 <= a < b < m && p[a] > p[b] ==> #[trigger] key_lt(h, s[a], s[b])
}

/// `new` is `old` sorted by column `h`, books of equal key in their old order.
pub open spec fn is_stable_sort(old: Seq<Book>, new: Seq<Book>, h: Header) -> bool {
    exists|p: Seq<int>|
        is_rearrangement(old, new, p) && sorted_prefix(new, h, new.len() as int) && stable_prefix(
            new,
            p,
            h,
            new.len() as int,
        )
}

/// What holds after the first `i` books have been put in order.
pub open spec fn sort_step(old: Seq<Book>, s: Seq<Book>, p: Seq<int>, h: Header, i: int) -> bool {
    &&& 0 <= i <= s.len()
    &&& is_rearrangement(old, s, p)
    &&& sorted_prefix(s, h, i)
    &&& stable_prefix(s, p, h, i)
    &&& forall|k: int| i <= k < s.len() ==> #[trigger] p[k] == k
    &&& forall|k: int| 0 <= k < i ==> #[trigger] p[k] < i
}

/// Moving the book at `i` to `j`, behind the books that do not come after
/// it, keeps the first `i + 1` books in order.
proof fn lemma_insert_step(old: Seq<Book>, s: Seq<Book>, p: Seq<int>, h: Header, i: int, j: int)
    requires
        sort_step(old, s, p, h, i),
        0 <= j <= i < s.len(),
        forall|a: int| 0 <= a < j ==> !#[trigger] key_lt(h, s[i], s[a]),
        j < i ==> key_lt(h, s[i], s[j]),
    ensures
        sort_step(old, s.remove(i).insert(j, s[i]), p.remove(i).insert(j, i), h, i + 1),
{
    let x = s[i];
    let s_next = s.remove(i).insert(j, x);
    let p_next = p.remove(i).insert(j, i);
    let n = s.len();
    assert(s_next.len() == n && p_next.len() == n);
    // where each position of the new order was before the move
    let m = |k: int|
        if k < j {
            k
        } else if k == j {
            i
        } else if k <= i {
            k - 1
        } else {
            k
        };
    assert forall|k: int| 0 <= k < n implies s_next[k] == s[m(k)] && p_next[k] == p[m(k)] by {}
    assert forall|k: int| j <= k < i implies key_lt(h, x, #[trigger] s[k]) by {
        if k > j {
            assert(!key_lt(h, s[k], s[j]));
            lemma_key_order(h, x, s[j], s[k]);
            lemma_key_order(h, s[k], s[j], x);
        }
    }
    assert forall|k: int| 0 <= k < n implies 0 <= #[trigger] p_next[k] < old.len() && s_next[k] == old[p_next[k]] by {
        assert(s_next[k] == s[m(k)] && p_next[k] == p[m(k)]);
    }
    assert forall|k1: int, k2: int|
        0 <= k1 < n && 0 <= k2 < n && k1 != k2 implies #[trigger] p_next[k1] != #[trigger] p_next[k2] by {
        assert(p_next[k1] == p[m(k1)] && p_next[k2] == p[m(k2)]);
    }
    assert forall|a: int, b: int| 0 <= a < b < i + 1 implies !#[trigger] key_lt(h, s_next[b], s_next[a]) by {
        assert(s_next[a] == s[m(a)] && s_next[b] == s[m(b)]);
        if a == j {
            if m(b) < i {
                lemma_key_order(h, x, s[m(b)], x);
            }
        }
    }
    assert forall|a: int, b: int| 0 <= a < b < i + 1 && p_next[a] > p_next[b] implies #[trigger] key_lt(
        h,
        s_next[a],
        s_next[b],
    ) by {
        assert(s_next[a] == s[m(a)] && s_next[b] == s[m(b)]);
        assert(p_next[a] == p[m(a)] && p_next[b] == p[m(b)]);
    }
    assert forall|k: int| i + 1 <= k < n implies #[trigger] p_next[k] == k by {
        assert(p_next[k] == p[m(k)]);
    }
    assert forall|k: int| 0 <= k < i + 1 implies #[trigger] p_next[k] < i + 1 by {
        assert(p_next[k] == p[m(k)]);
    }
}

/// Relies on rand's `SliceRandom::choose`, with the thread-local generator of
/// `thread_rng`: nothing for an empty slice, else one of its elements.
#[verifier::external_body]
fn choose_from(pool: &Vec<usize>) -> (r: Option<usize>)
    ensures
        r is None <==> pool@.len() == 0,
        r matches Some(x) ==> pool@.contains(x),
{
    pool.choose(&mut rand::thread_rng()).copied()
}

impl BookRecords {
    /// An empty list.
    pub fn new() -> (r: BookRecords)
        ensures
            r@ == Seq::<Book>::empty(),
    {
        BookRecords { records: Vec::new() }
    }

    /// The book at `index`, if there is one.
    pub fn get(&self, index: usize) -> (r: Option<&Book>)
        ensures
            index < self@.len() ==> r == Some(&self@[index as int]),
            index >= self@.len() ==> r is None,
    {
        if index < self.records.len() {
            Some(&self.records[index])
        } else {
            None
        }
    }

    /// The books, in order.
    pub fn records(&self) -> (r: &Vec<Book>)
        ensures
            r@ == self@,
    {
        &self.records
    }

    /// Appends a book.
    pub fn push(&mut self, book: Book)
        ensures
            final(self)@ == old(self)@.push(book),
    {
        self.records.push(book);
    }

    /// Appends a book by `author` titled `title`, of weight 1.
    pub fn add_book(&mut self, author: &str, title: &str)
        ensures
            final(self)@.len() == old(self)@.len() + 1,
            final(self)@.take(old(self)@.len() as int) == old(self)@,
            final(self)@.last().author@ == author@,
            final(self)@.last().title@ == title@,
            final(self)@.last().weight == 1,
    {
        self.push(Book { author: author.to_owned(), title: title.to_owned(), weight: 1 });
        assert(final(self)@.take(old(self)@.len() as int) =~= old(self)@);
    }

    /// The book that `input` names, by index or by title.
    pub fn get_book(&self, input: &str) -> (r: Option<&Book>)
        ensures
            match book_position(self@, input@) {
                Some(i) => r == Some(&self@[i]),
                None => r is None,
            },
    {
        let found = self.get_from_input(input);
        proof {
            self.lemma_resolves_by_title(input@);
        }
        match found {
            Some((_, book)) => Some(book),
            None => None,
        }
    }

    /// Removes the book that `input` names; does nothing when it names none.
    pub fn remove_book(&mut self, input: &str)
        ensures
            match book_position(old(self)@, input@) {
                Some(i) => final(self)@ == old(self)@.remove(i),
                None => final(self)@ == old(self)@,
            },
    {
        let found = match self.get_from_input(input) {
            Some((i, _)) => Some(i),
            None => None,
        };
        proof {
            self.lemma_resolves_by_title(input@);
        }
        if let Some(i) = found {
            self.records.remove(i);
        }
    }

    /// Sets the weight of every book to 1.
    pub fn reset_weights(&mut self)
        ensures
            final(self)@.len() == old(self)@.len(),
            forall|i: int|
                0 <= i < old(self)@.len() ==> #[trigger] final(self)@[i] == with_weight(
                    old(self)@[i],
                    1,
                ),
    {
        let n = self.records.len();
        let mut i: usize = 0;
        while i < n
            invariant
                n == old(self)@.len(),
                i <= n,
                self@.len() == n,
                forall|j: int| 0 <= j < i ==> #[trigger] self@[j] == with_weight(old(self)@[j], 1),
                forall|j: int| i <= j < n ==> #[trigger] self@[j] == old(self)@[j],
            decreases n - i,
        {
            self.records[i].change_weight(1);
            i += 1;
        }
    }

    /// Sets the weight of the book that `input` names, cut down to
    /// `MAX_WEIGHT`; does nothing when it names none.
    pub fn change_weight(&mut self, input: &str, new_weight: u8)
        ensures
            match book_position(old(self)@, input@) {
                Some(i) => final(self)@ == old(self)@.update(
                    i,
                    with_weight(
                        old(self)@[i],
                        if new_weight > MAX_WEIGHT {
                            MAX_WEIGHT
                        } else {
                            new_weight
                        },
                    ),
                ),
                None => final(self)@ == old(self)@,
            },
    {
        let new_weight = if new_weight > MAX_WEIGHT {
            MAX_WEIGHT
        } else {
            new_weight
        };
        let found = match self.get_from_input(input) {
            Some((i, _)) => Some(i),
            None => None,
        };
        proof {
            self.lemma_resolves_by_title(input@);
        }
        if let Some(i) = found {
            self.records[i].change_weight(new_weight);
            assert(self@ =~= old(self)@.update(i as int, with_weight(old(self)@[i as int], new_weight)));
        }
    }

    /// Sorts the books by column `header`, keeping books of equal key in their
    /// order; sorting by the index column leaves the list as it is.
    pub fn sort_by(&mut self, header: Header)
        ensures
            is_stable_sort(old(self)@, final(self)@, header),
    {
        let n = self.records.len();
        let ghost mut p: Seq<int> = Seq::new(n as nat, |k: int| k);
        let mut i: usize = 0;
        while i < n
            invariant
                n == self@.len(),
                i <= n,
                sort_step(old(self)@, self@, p, header, i as int),
            decreases n - i,
        {
            let mut j: usize = 0;
            while j < i && !key_less(header, &self.records[i], &self.records[j])
                invariant
                    j <= i < n,
                    n == self@.len(),
                    forall|a: int| 0 <= a < j ==> !#[trigger] key_lt(header, self@[i as int], self@[a]),
                decreases i - j,
            {
                j += 1;
            }
            let ghost s = self@;
            let book = self.records.remove(i);
            self.records.insert(j, book);
            proof {
                lemma_insert_step(old(self)@, s, p, header, i as int, j as int);
                p = p.remove(i as int).insert(j as int, i as int);
            }
            i += 1;
        }
        assert(is_rearrangement(old(self)@, self@, p));
    }

    /// The list as a table, one block of rows per book.
    pub fn to_string(&self) -> (r: String)
        ensures
            r@ == table(self@),
    {
        let mut out: Vec<char> = Vec::new();
        push_repeat(&mut out, '-', 80);
        out.push('\n');
        let empty: Vec<char> = Vec::new();
        crate::book::push_row(
            &mut out,
            &empty,
            &chars_of("author"),
            &chars_of("title"),
            &chars_of("weight"),
        );
        out.push('\n');
        push_repeat(&mut out, '=', 80);
        out.push('\n');
        let ghost head = out@;
        let ghost blocks = book_blocks(self@);
        let ghost sep = seq!['\n'] + rule('-') + seq!['\n'];
        let n = self.records.len();
        let mut i: usize = 0;
        while i < n
            invariant
                n == self@.len(),
                i <= n,
                blocks == book_blocks(self@),
                sep == seq!['\n'] + rule('-') + seq!['\n'],
                out@ == head + join(blocks.take(i as int), sep),
            decreases n - i,
        {
            proof {
                lemma_join_step(blocks, sep, i as int);
            }
            let ghost before = out@;
            if i > 0 {
                out.push('\n');
                push_repeat(&mut out, '-', 80);
                out.push('\n');
            }
            let book = &self.records[i];
            let a = chars_of(book.author.as_str());
            let t = chars_of(book.title.as_str());
            let rows = block_chars(&a, &t, book.weight, i);
            push_all(&mut out, &rows);
            assert(out@ =~= head + join(blocks.take(i + 1), sep));
            i += 1;
        }
        assert(blocks.take(n as int) =~= blocks);
        out.push('\n');
        push_repeat(&mut out, '-', 80);
        assert(out@ =~= table(self@));
        string_of(&out)
    }

    /// The draw pool: each book's position, as many times as its weight.
    pub fn weighted_index_vector(&self) -> (r: Vec<usize>)
        ensures
            r@ == pool(self@),
    {
        let mut r: Vec<usize> = Vec::new();
        let n = self.records.len();
        let mut i: usize = 0;
        while i < n
            invariant
                n == self@.len(),
                i <= n,
                r@ == pool(self@.take(i as int)),
            decreases n - i,
        {
            let w = self.records[i].weight;
            let ghost before = r@;
            let mut k: u8 = 0;
            while k < w
                invariant
                    k <= w,
                    r@ == before + Seq::new(k as nat, |j: int| i),
                decreases w - k,
            {
                r.push(i);
                k += 1;
                assert(r@ =~= before + Seq::new(k as nat, |j: int| i));
            }
            assert(self@.take(i + 1).drop_last() =~= self@.take(i as int));
            i += 1;
        }
        assert(self@.take(n as int) =~= self@);
        r
    }

    /// A book drawn at random, each with probability proportional to its
    /// weight; nothing when all weights are 0 or the list is empty.
    pub fn select_random_book(&self) -> (r: Option<&Book>)
        ensures
            r is None <==> total_weight(self@) == 0,
            r matches Some(b) ==> exists|i: int|
                0 <= i < self@.len() && self@[i].weight > 0 && *b == self@[i],
    {
        let weights = self.weighted_index_vector();
        let n = self.records.len();
        assert(n == self@.len());
        proof {
            lemma_pool_len(self@);
        }
        match choose_from(&weights) {
            Some(index) => {
                let ghost k = weights@.index_of(index);
                proof {
                    lemma_pool_entries(self@, k);
                }
                self.get(index)
            },
            None => None,
        }
    }

    proof fn lemma_resolves_by_title(&self, input: Seq<char>)
        ensures
            resolve(self.collection(), input, |it: Book| self.matches(it, input))
                == book_position(self@, input),
    {
        assert((|it: Book| self.matches(it, input)) =~= titled(input));
    }
}

impl IndexSearch for BookRecords {
    type Item = Book;

    open spec fn collection(&self) -> Seq<Book> {
        self@
    }

    open spec fn matches(&self, item: Book, input: Seq<char>) -> bool {
        item.title@ == input
    }

    fn get_collection(&self) -> (r: &Vec<Book>) {
        self.records()
    }

    fn is_equal(&self, item: &Book, input: &str) -> (r: bool) {
        item.title == input.to_owned()
    }
}

impl Default for BookRecords {
    fn default() -> (r: BookRecords)
        ensures
            r@ == Seq::<Book>::empty(),
    {
        BookRecords::new()
    }
}

impl From<Vec<Book>> for BookRecords {
    fn from(records: Vec<Book>) -> (r: BookRecords)
        ensures
            r@ == records@,
    {
        BookRecords { records }
    }
}

impl vstd::std_specs::convert::FromSpecImpl<Vec<Book>> for BookRecords {
    open spec fn obeys_from_spec() -> bool {
        true
    }

    closed spec fn from_spec(v: Vec<Book>) -> BookRecords {
        BookRecords { records: v }
    }
}

} // verus!
