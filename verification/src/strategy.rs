//! The strategy store's rules: which stored texts are patterns, what a
//! missing team gets by default, and what loading and replacing do to the
//! stored files.
//!
//! A stored text is a pattern split by any number of line breaks. The store
//! itself is a directory of files, one per team, each named by a secret
//! identifier of 32 characters; reading and writing the files is left to the
//! caller, who is told here what to write and what to delete.

use vstd::prelude::*;
use vstd::slice::slice_to_vec;
use vstd::arithmetic::div_mod::lemma_fundamental_div_mod_converse;
use rand::Rng;
use crate::seeding::{fit, pattern_len, views, DEAD, SLOTS};

verus! {

/// The line break, which a stored text may hold anywhere.
pub const NEWLINE: u8 = 10;

/// The character of a live cell in a default pattern.
pub const LIVE: u8 = 49;

/// Number of characters in an identifier.
pub const IDENTIFIER_LEN: usize = 32;

/// A stored text without its line breaks.
pub open spec fn stripped(content: Seq<u8>) -> Seq<u8>
    decreases content.len(),
{
    if content.len() == 0 {
        Seq::empty()
    } else if content.last() == NEWLINE {
        stripped(content.drop_last())
    } else {
        stripped(content.drop_last()).push(content.last())
    }
}

/// Whether a stored text holds a pattern for a board of the given side: one
/// character per cell of a quadrant once the line breaks are gone.
pub open spec fn is_strategy(side: nat, content: Seq<u8>) -> bool {
    stripped(content).len() == pattern_len(side)
}

/// A cell of the default pattern: live inside, dead on the outermost rows
/// and columns of the quadrant.
pub open spec fn default_cell(q: int, row: int, column: int) -> u8 {
    if 0 < row < q - 1 && 0 < column < q - 1 {
        LIVE
    } else {
        DEAD
    }
}

/// The default pattern for a quadrant of side `q`.
pub open spec fn default_pattern(q: nat) -> Seq<u8> {
    Seq::new(q * q, |k: int| default_cell(q as int, k / (q as int), k % (q as int)))
}

/// The default pattern as it is stored: one line per row of the quadrant,
/// each ended by a line break.
pub open spec fn default_text(q: nat) -> Seq<u8> {
    Seq::new(
        q * (q + 1),
        |i: int|
            if i % (q as int + 1) == q {
                NEWLINE
            } else {
                default_cell(q as int, i / (q as int + 1), i % (q as int + 1))
            },
    )
}

/// Whether a byte is an ASCII letter or digit.
pub open spec fn is_alphanumeric(b: u8) -> bool {
    (48 <= b <= 57) || (65 <= b <= 90) || (97 <= b <= 122)
}

/// Whether a name has the form of an identifier: 32 ASCII letters and
/// digits.
pub open spec fn is_identifier(name: Seq<u8>) -> bool {
    &&& name.len() == IDENTIFIER_LEN
    &&& forall|i: int| 0 <= i < name.len() ==> is_alphanumeric(#[trigger] name[i])
}

/// One file of the store.
#[derive(Clone, Debug, PartialEq, Eq)]
pub struct Entry {
    pub name: Vec<u8>,
    pub content: Vec<u8>,
}

/// The texts of a list of files.
pub open spec fn contents_of(entries: Seq<Entry>) -> Seq<Seq<u8>> {
    entries.map_values(|entry: Entry| entry.content@)
}

/// The patterns among the texts, in their order, without line breaks.
pub open spec fn kept(side: nat, contents: Seq<Seq<u8>>) -> Seq<Seq<u8>>
    decreases contents.len(),
{
    if contents.len() == 0 {
        Seq::empty()
    } else if is_strategy(side, contents.last()) {
        kept(side, contents.drop_last()).push(stripped(contents.last()))
    } else {
        kept(side, contents.drop_last())
    }
}

/// The positions of the texts that are no patterns, in their order.
pub open spec fn rejected(side: nat, contents: Seq<Seq<u8>>) -> Seq<usize>
    decreases contents.len(),
{
    if contents.len() == 0 {
        Seq::empty()
    } else if is_strategy(side, contents.last()) {
        rejected(side, contents.drop_last())
    } else {
        rejected(side, contents.drop_last()).push((contents.len() - 1) as usize)
    }
}

/// How many default patterns loading adds: as many as the stored patterns
/// fall short of one per slot.
pub open spec fn missing(side: nat, contents: Seq<Seq<u8>>) -> nat {
    if kept(side, contents).len() >= SLOTS {
        0
    } else {
        (SLOTS - kept(side, contents).len()) as nat
    }
}

/// What loading returns: the stored patterns in their order, the first
/// four of them where there are more, and default patterns after them
/// where there are fewer.
pub open spec fn loaded(side: nat, contents: Seq<Seq<u8>>) -> Seq<Seq<u8>> {
    if kept(side, contents).len() >= SLOTS {
        kept(side, contents).take(SLOTS as int)
    } else {
        kept(side, contents) + Seq::new(
            missing(side, contents),
            |i: int| default_pattern(side / 2),
        )
    }
}

/// The stored texts that are patterns, in their order, as they are stored.
pub open spec fn survivors(side: nat, contents: Seq<Seq<u8>>) -> Seq<Seq<u8>>
    decreases contents.len(),
{
    if contents.len() == 0 {
        Seq::empty()
    } else if is_strategy(side, contents.last()) {
        survivors(side, contents.drop_last()).push(contents.last())
    } else {
        survivors(side, contents.drop_last())
    }
}

/// The texts in the store once what a load deletes is gone and what it
/// creates is there.
pub open spec fn stored_after(side: nat, contents: Seq<Seq<u8>>) -> Seq<Seq<u8>> {
    survivors(side, contents) + Seq::new(missing(side, contents), |i: int| default_text(side / 2))
}

/// What loading a store comes to.
#[derive(Clone, Debug, PartialEq, Eq)]
pub struct LoadPlan {
    /// The patterns of the round, one per slot.
    pub strategies: Vec<Vec<u8>>,
    /// Positions, in the list that was loaded, of the files to delete.
    pub remove: Vec<usize>,
    /// Files to create, each holding the default pattern.
    pub create: Vec<Entry>,
}

/// Why a replacement was refused: its text, without line breaks, has
/// `actual` characters where a pattern has `expected`.
#[derive(Clone, Copy, Debug, PartialEq, Eq, Structural)]
pub struct LengthMismatch {
    pub expected: usize,
    pub actual: usize,
}

/// A quadrant and its stored text fit wherever the board does.
pub proof fn lemma_pattern_fits(side: nat)
    ensures
        pattern_len(side) <= side * side,
        (side / 2) * (side / 2 + 1) <= side * side,
{
    let q = side / 2;
    assert(q * q <= side * side && q * (q + 1) <= side * side) by (nonlinear_arith)
        requires
            0 <= q,
            2 * q <= side,
    ;
}

/// The stored default text holds the default pattern: what is left of the
/// first `n` characters of the text, once the line breaks are gone, is the
/// start of the pattern.
pub proof fn lemma_default_prefix(q: nat, n: nat)
    requires
        n <= q * (q + 1),
    ensures
        n / (q + 1) <= n,
        n - n / (q + 1) <= q * q,
        stripped(default_text(q).take(n as int)) == default_pattern(q).take(
            n - n / (q + 1),
        ),
    decreases n,
{
    let text = default_text(q);
    let pattern = default_pattern(q);
    let w = (q + 1) as int;
    if n == 0 {
        assert(text.take(0) =~= Seq::<u8>::empty());
        assert(pattern.take(0) =~= Seq::<u8>::empty());
    } else {
        let i = (n - 1) as int;
        let row = i / w;
        let column = i % w;
        lemma_default_prefix(q, (n - 1) as nat);
        vstd::arithmetic::div_mod::lemma_fundamental_div_mod(i, w);
        vstd::arithmetic::div_mod::lemma_mod_bound(i, w);
        assert(i == w * row + column);
        assert(w * row == row * w) by (nonlinear_arith);
        assert(0 <= row < q) by (nonlinear_arith)
            requires
                0 <= i < q * w,
                i == row * w + column,
                0 <= column < w,
                w == q + 1,
        ;
        assert(text.take(n as int).drop_last() =~= text.take(i));
        assert(text.take(n as int).last() == text[i]);
        assert(row * w == row * q + row) by (nonlinear_arith)
            requires
                w == q + 1,
        ;
        if column == q {
            assert(n == (row + 1) * w) by (nonlinear_arith)
                requires
                    n == row * w + q + 1,
                    w == q + 1,
            ;
            lemma_fundamental_div_mod_converse(n as int, w, row + 1, 0);
        } else {
            lemma_fundamental_div_mod_converse(n as int, w, row, column + 1);
            let k = row * q + column;
            assert(k == i - row);
            assert(k + 1 <= q * q) by (nonlinear_arith)
                requires
                    k == row * q + column,
                    0 <= row < q,
                    0 <= column < q,
            ;
            lemma_fundamental_div_mod_converse(k, q as int, row, column);
            assert(pattern[k] == text[i]);
            assert(pattern.take(k + 1) =~= pattern.take(k).push(pattern[k]));
        }
    }
}

/// Without its line breaks the stored default text is the default pattern,
/// which has one character per cell of the quadrant.
pub proof fn lemma_default_text_is_pattern(side: nat)
    ensures
        stripped(default_text(side / 2)) == default_pattern(side / 2),
        is_strategy(side, default_text(side / 2)),
{
    let q = side / 2;
    let n = q * (q + 1);
    lemma_default_prefix(q, n);
    assert(n == q * q + q) by (nonlinear_arith)
        requires
            n == q * (q + 1),
    ;
    if q > 0 {
        assert(n == q * (q + 1) + 0);
        lemma_fundamental_div_mod_converse(n as int, (q + 1) as int, q as int, 0);
    }
    assert(default_text(q).take(n as int) =~= default_text(q));
    assert(default_pattern(q).take((q * q) as int) =~= default_pattern(q));
}

/// Loading always ends with one pattern per slot, each of the length that
/// seeding asks for, and creates exactly as many files as patterns were
/// missing.
pub proof fn lemma_loaded_is_full(side: nat, contents: Seq<Seq<u8>>)
    ensures
        loaded(side, contents).len() == SLOTS,
        fit(side, loaded(side, contents)),
        kept(side, contents).len() <= SLOTS ==> kept(side, contents).len() + missing(
            side,
            contents,
        ) == SLOTS,
{
    lemma_kept_fit(side, contents);
}

/// The store heals itself: after a load every stored text is a pattern,
/// and where at most four were before, exactly four are.
pub proof fn lemma_store_heals(side: nat, contents: Seq<Seq<u8>>)
    ensures
        forall|i: int|
            0 <= i < stored_after(side, contents).len() ==> is_strategy(
                side,
                #[trigger] stored_after(side, contents)[i],
            ),
        survivors(side, contents).len() == kept(side, contents).len(),
        kept(side, contents).len() <= SLOTS ==> stored_after(side, contents).len() == SLOTS,
{
    lemma_survivors(side, contents);
    lemma_default_text_is_pattern(side);
}

/// The texts that survive a load are the patterns that it keeps.
pub proof fn lemma_survivors(side: nat, contents: Seq<Seq<u8>>)
    ensures
        survivors(side, contents).len() == kept(side, contents).len(),
        forall|i: int|
            0 <= i < survivors(side, contents).len() ==> is_strategy(
                side,
                #[trigger] survivors(side, contents)[i],
            ) && stripped(survivors(side, contents)[i]) == kept(side, contents)[i],
    decreases contents.len(),
{
    if contents.len() > 0 {
        lemma_survivors(side, contents.drop_last());
    }
}

/// Every pattern that loading keeps has the length that seeding asks for.
pub proof fn lemma_kept_fit(side: nat, contents: Seq<Seq<u8>>)
    ensures
        fit(side, kept(side, contents)),
        kept(side, contents).len() <= contents.len(),
    decreases contents.len(),
{
    if contents.len() > 0 {
        lemma_kept_fit(side, contents.drop_last());
    }
}

/// Removes every line break from a text.
pub fn strip_newlines(content: &[u8]) -> (pattern: Vec<u8>)
    ensures
        pattern@ == stripped(content@),
{
    let mut pattern: Vec<u8> = Vec::new();
    let mut i: usize = 0;
    assert(content@.take(0) =~= Seq::<u8>::empty());
    while i < content.len()
        invariant
            i <= content.len(),
            pattern@ == stripped(content@.take(i as int)),
        decreases content.len() - i,
    {
        assert(content@.take(i + 1).drop_last() =~= content@.take(i as int));
        if content[i] != NEWLINE {
            pattern.push(content[i]);
        }
        i += 1;
    }
    assert(content@.take(i as int) =~= content@);
    pattern
}

/// Number of characters in a pattern for a board of the given side.
pub fn pattern_size(side: usize) -> (n: usize)
    requires
        side * side <= usize::MAX,
    ensures
        n == pattern_len(side as nat),
{
    proof {
        lemma_pattern_fits(side as nat);
    }
    (side / 2) * (side / 2)
}

/// Writes the default pattern as it is stored, for a board of the given
/// side.
pub fn default_strategy(side: usize) -> (text: Vec<u8>)
    requires
        side * side <= usize::MAX,
    ensures
        text@ == default_text((side / 2) as nat),
{
    let q: usize = side / 2;
    proof {
        lemma_pattern_fits(side as nat);
    }
    let mut text: Vec<u8> = Vec::new();
    let mut row: usize = 0;
    while row < q
        invariant
            row <= q,
            q * (q + 1) <= usize::MAX,
            text@.len() == row * (q + 1),
            forall|i: int| 0 <= i < text@.len() ==> #[trigger] text@[i] == default_text(q as nat)[i],
        decreases q - row,
    {
        proof {
            assert(row * (q + 1) + (q + 1) == (row + 1) * (q + 1)) by (nonlinear_arith);
            assert((row + 1) * (q + 1) <= q * (q + 1)) by (nonlinear_arith)
                requires
                    row + 1 <= q,
            ;
        }
        let mut column: usize = 0;
        while column < q
            invariant
                row < q,
                column <= q,
                text@.len() == row * (q + 1) + column,
                row * (q + 1) + (q + 1) <= q * (q + 1),
                forall|i: int|
                    0 <= i < text@.len() ==> #[trigger] text@[i] == default_text(q as nat)[i],
            decreases q - column,
        {
            proof {
                lemma_fundamental_div_mod_converse(
                    row * (q + 1) + column,
                    (q + 1) as int,
                    row as int,
                    column as int,
                );
            }
            if row > 0 && row < q - 1 && column > 0 && column < q - 1 {
                text.push(LIVE);
            } else {
                text.push(DEAD);
            }
            column += 1;
        }
        proof {
            lemma_fundamental_div_mod_converse(
                row * (q + 1) + q,
                (q + 1) as int,
                row as int,
                q as int,
            );
        }
        text.push(NEWLINE);
        row += 1;
    }
    assert(text@ =~= default_text(q as nat));
    text
}

/// Checks a replacement for the file named `identifier`. A text that holds
/// a pattern for the board is to be written under that name, line breaks
/// and all; any other text is refused, with the length a pattern has and
/// the length this one has without its line breaks, and nothing is written.
pub fn replace(side: usize, identifier: &[u8], content: &[u8]) -> (r: Result<Entry, LengthMismatch>)
    requires
        side * side <= usize::MAX,
    ensures
        is_strategy(side as nat, content@) ==> (r matches Ok(file) && file.name@ == identifier@
            && file.content@ == content@),
        !is_strategy(side as nat, content@) ==> r == Err::<Entry, LengthMismatch>(
            LengthMismatch {
                expected: pattern_len(side as nat) as usize,
                actual: stripped(content@).len() as usize,
            },
        ),
{
    let expected: usize = pattern_size(side);
    let actual: usize = strip_newlines(content).len();
    if actual == expected {
        Ok(Entry { name: slice_to_vec(identifier), content: slice_to_vec(content) })
    } else {
        Err(LengthMismatch { expected, actual })
    }
}

/// The random number generator of the `rand` crate that each thread has.
#[verifier::external_type_specification]
#[verifier::external_body]
pub struct ExThreadRng(rand::rngs::ThreadRng);

/// `rand::thread_rng`: hands out the calling thread's generator. Nothing is
/// claimed of it.
#[verifier::external_body]
fn thread_generator() -> rand::rngs::ThreadRng {
    rand::thread_rng()
}

/// `rand::Rng::sample` with the distribution `rand::distributions::Alphanumeric`:
/// draws one byte, which that distribution takes from the ASCII letters and
/// digits. Which of them comes is left open.
#[verifier::external_body]
fn sample_alphanumeric(generator: &mut rand::rngs::ThreadRng) -> (b: u8)
    ensures
        is_alphanumeric(b),
{
    generator.sample(rand::distributions::Alphanumeric)
}

/// Draws a new identifier at random.
pub fn fresh_identifier() -> (name: Vec<u8>)
    ensures
        is_identifier(name@),
{
    let mut generator = thread_generator();
    let mut name: Vec<u8> = Vec::new();
    while name.len() < IDENTIFIER_LEN
        invariant
            name@.len() <= IDENTIFIER_LEN,
            forall|i: int| 0 <= i < name@.len() ==> is_alphanumeric(#[trigger] name@[i]),
        decreases IDENTIFIER_LEN - name@.len(),
    {
        let b: u8 = sample_alphanumeric(&mut generator);
        name.push(b);
    }
    name
}

/// Decides what loading a store comes to, given its files in the order in
/// which the directory lists them.
///
/// Every file whose text is no pattern for the board is to be deleted. The
/// patterns of the others become the round's strategies, in their order;
/// where more than four are stored, the first four. Where fewer are stored,
/// default patterns make up the difference, and for each of them a file
/// with the default text is to be created under a new random identifier.
pub fn plan_load(side: usize, entries: &Vec<Entry>) -> (plan: LoadPlan)
    requires
        side * side <= usize::MAX,
    ensures
        views(plan.strategies@) == loaded(side as nat, contents_of(entries@)),
        plan.strategies@.len() == SLOTS,
        fit(side as nat, views(plan.strategies@)),
        plan.remove@ == rejected(side as nat, contents_of(entries@)),
        plan.create@.len() == missing(side as nat, contents_of(entries@)),
        forall|i: int|
            0 <= i < plan.create@.len() ==> is_identifier((#[trigger] plan.create@[i]).name@)
                && plan.create@[i].content@ == default_text((side / 2) as nat),
{
    let ghost contents = contents_of(entries@);
    let expected: usize = pattern_size(side);
    let mut strategies: Vec<Vec<u8>> = Vec::new();
    let mut remove: Vec<usize> = Vec::new();
    let mut i: usize = 0;
    assert(contents.take(0) =~= Seq::<Seq<u8>>::empty());
    assert(views(strategies@) =~= Seq::<Seq<u8>>::empty());
    while i < entries.len()
        invariant
            i <= entries.len(),
            contents == contents_of(entries@),
            expected == pattern_len(side as nat),
            views(strategies@) == kept(side as nat, contents.take(i as int)),
            remove@ == rejected(side as nat, contents.take(i as int)),
        decreases entries.len() - i,
    {
        let pattern: Vec<u8> = strip_newlines(entries[i].content.as_slice());
        proof {
            assert(contents.take(i + 1).drop_last() =~= contents.take(i as int));
            assert(contents.take(i + 1).last() == entries@[i as int].content@);
        }
        if pattern.len() == expected {
            let ghost before = strategies@;
            strategies.push(pattern);
            assert(views(strategies@) =~= views(before).push(pattern@));
        } else {
            remove.push(i);
        }
        i += 1;
    }
    assert(contents.take(i as int) =~= contents);
    proof {
        lemma_loaded_is_full(side as nat, contents);
        lemma_default_text_is_pattern(side as nat);
    }
    let mut create: Vec<Entry> = Vec::new();
    if strategies.len() > SLOTS {
        let ghost before = strategies@;
        strategies.truncate(SLOTS);
        assert(views(strategies@) =~= views(before).take(SLOTS as int));
    } else {
        let text: Vec<u8> = default_strategy(side);
        let ghost stored = views(strategies@);
        let ghost short = missing(side as nat, contents);
        assert(views(strategies@) =~= stored + Seq::new(
            0,
            |k: int| default_pattern((side / 2) as nat),
        ));
        while strategies.len() < SLOTS
            invariant
                strategies@.len() <= SLOTS,
                stored.len() + short == SLOTS,
                text@ == default_text((side / 2) as nat),
                stripped(text@) == default_pattern((side / 2) as nat),
                create@.len() + stored.len() == strategies@.len(),
                views(strategies@) == stored + Seq::new(
                    create@.len() as nat,
                    |k: int| default_pattern((side / 2) as nat),
                ),
                forall|k: int|
                    0 <= k < create@.len() ==> is_identifier((#[trigger] create@[k]).name@)
                        && create@[k].content@ == default_text((side / 2) as nat),
            decreases SLOTS - strategies@.len(),
        {
            let ghost before = strategies@;
            let name: Vec<u8> = fresh_identifier();
            let pattern: Vec<u8> = strip_newlines(text.as_slice());
            create.push(Entry { name, content: slice_to_vec(text.as_slice()) });
            strategies.push(pattern);
            assert(views(strategies@) =~= views(before).push(pattern@));
            assert(views(strategies@) =~= stored + Seq::new(
                create@.len() as nat,
                |k: int| default_pattern((side / 2) as nat),
            ));
        }
    }
    assert(views(strategies@) == loaded(side as nat, contents));
    LoadPlan { strategies, remove, create }
}

} // verus!
