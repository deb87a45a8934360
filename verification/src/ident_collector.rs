//! Collecting identifiers that occur in the input, and reserving fresh ones
//! for use in generated code.
use vstd::prelude::*;

use proc_macro2::Span;

use crate::ident::is_plain_ident;
use crate::syntax::Name;

verus! {

/// Prefix of reserved identifiers once all single letters are taken.
pub const FRESH_PREFIX: &'static str = "__FUNCMAP_";

/// The characters of [`FRESH_PREFIX`].
pub open spec fn fresh_prefix() -> Seq<char> {
    seq!['_', '_', 'F', 'U', 'N', 'C', 'M', 'A', 'P', '_']
}

/// The decimal digit character for `d` (`0 <= d < 10`).
pub open spec fn digit_char(d: int) -> char {
    (48 + d) as char
}

/// The decimal notation of `n`, without leading zeros.
pub open spec fn decimal(n: nat) -> Seq<char>
    decreases n,
{
    if n < 10 {
        seq![digit_char(n as int)]
    } else {
        decimal(n / 10).push(digit_char((n % 10) as int))
    }
}

/// The letter at position `pos` (`0 <= pos < 27`) of one round of candidates:
/// from `desired` up to `Z`, then from `A` up to `desired` again.
pub open spec fn letter_at(desired: char, pos: int) -> char {
    if pos <= 'Z' as int - desired as int {
        (desired as int + pos) as char
    } else {
        ('A' as int + (pos - ('Z' as int - desired as int) - 1)) as char
    }
}

/// The candidate identifier at position `pos` of round `round`: the bare
/// letter in round 0, the letter behind [`FRESH_PREFIX`] in round 1, and
/// the letter behind [`FRESH_PREFIX`] followed by the round number after that.
pub open spec fn candidate(desired: char, round: nat, pos: int) -> Seq<char> {
    let letter = letter_at(desired, pos);
    if round == 0 {
        seq![letter]
    } else if round == 1 {
        fresh_prefix().push(letter)
    } else {
        fresh_prefix().push(letter) + decimal(round)
    }
}

/// `name` is the first candidate, in the order of rounds and positions
/// within a round, that `reserved` does not contain.
pub open spec fn is_first_fresh(reserved: Set<Seq<char>>, desired: char, name: Seq<char>) -> bool {
    &&& !reserved.contains(name)
    &&& exists|round: nat, pos: int| {
        &&& 0 <= pos < 27
        &&& name == #[trigger] candidate(desired, round, pos)
        &&& forall|r: nat, p: int|
            0 <= p < 27 && (r < round || (r == round && p < pos)) ==> reserved.contains(
                #[trigger] candidate(desired, r, p),
            )
    }
}

/// The first candidate for `desired` that `reserved` does not contain.
pub open spec fn fresh_name(reserved: Set<Seq<char>>, desired: char) -> Seq<char> {
    choose|name: Seq<char>| is_first_fresh(reserved, desired, name)
}

/// There is at most one first fresh candidate.
pub proof fn lemma_first_fresh_unique(reserved: Set<Seq<char>>, desired: char, a: Seq<char>, b: Seq<char>)
    requires
        is_first_fresh(reserved, desired, a),
        is_first_fresh(reserved, desired, b),
    ensures
        a == b,
{
    let (ra, pa) = choose|round: nat, pos: int| {
        &&& 0 <= pos < 27
        &&& a == #[trigger] candidate(desired, round, pos)
        &&& forall|r: nat, p: int|
            0 <= p < 27 && (r < round || (r == round && p < pos)) ==> reserved.contains(
                #[trigger] candidate(desired, r, p),
            )
    };
    let (rb, pb) = choose|round: nat, pos: int| {
        &&& 0 <= pos < 27
        &&& b == #[trigger] candidate(desired, round, pos)
        &&& forall|r: nat, p: int|
            0 <= p < 27 && (r < round || (r == round && p < pos)) ==> reserved.contains(
                #[trigger] candidate(desired, r, p),
            )
    };
    if ra < rb || (ra == rb && pa < pb) {
        assert(reserved.contains(candidate(desired, ra, pa)));
    } else if rb < ra || (ra == rb && pb < pa) {
        assert(reserved.contains(candidate(desired, rb, pb)));
    }
}

/// A first fresh candidate is the one that [`fresh_name`] picks.
pub proof fn lemma_fresh_name(reserved: Set<Seq<char>>, desired: char, name: Seq<char>)
    requires
        is_first_fresh(reserved, desired, name),
    ensures
        fresh_name(reserved, desired) == name,
{
    lemma_first_fresh_unique(reserved, desired, fresh_name(reserved, desired), name);
}

proof fn lemma_decimal_len(n: nat)
    ensures
        decimal(n).len() >= 1,
        n >= 10 ==> decimal(n).len() >= 2,
    decreases n,
{
    if n >= 10 {
        lemma_decimal_len(n / 10);
    }
}

proof fn lemma_decimal_injective(a: nat, b: nat)
    requires
        decimal(a) == decimal(b),
    ensures
        a == b,
    decreases a,
{
    lemma_decimal_len(a);
    lemma_decimal_len(b);
    if a < 10 && b < 10 {
        assert(decimal(a) == seq![digit_char(a as int)]);
        assert(decimal(b) == seq![digit_char(b as int)]);
        assert(decimal(a)[0] == digit_char(a as int));
        assert(decimal(b)[0] == digit_char(b as int));
    } else if a >= 10 && b >= 10 {
        let da = decimal(a);
        let db = decimal(b);
        assert(da == decimal(a / 10).push(digit_char((a % 10) as int)));
        assert(db == decimal(b / 10).push(digit_char((b % 10) as int)));
        assert(da.last() == db.last());
        assert(digit_char((a % 10) as int) == digit_char((b % 10) as int));
        assert(a % 10 == b % 10);
        assert(da.drop_last() =~= decimal(a / 10));
        assert(db.drop_last() =~= decimal(b / 10));
        lemma_decimal_injective(a / 10, b / 10);
        assert(a == 10 * (a / 10) + a % 10) by (nonlinear_arith);
        assert(b == 10 * (b / 10) + b % 10) by (nonlinear_arith);
    }
}

proof fn lemma_candidate_rounds_distinct(desired: char, r1: nat, r2: nat, pos: int)
    requires
        'A' <= desired <= 'Z',
        0 <= pos < 27,
        r1 != r2,
    ensures
        candidate(desired, r1, pos) != candidate(desired, r2, pos),
{
    lemma_decimal_len(r1);
    lemma_decimal_len(r2);
    let c1 = candidate(desired, r1, pos);
    let c2 = candidate(desired, r2, pos);
    let letter = letter_at(desired, pos);
    assert(fresh_prefix().push(letter).len() == 11);
    if c1 == c2 {
        if r1 >= 2 && r2 >= 2 {
            assert(c1.skip(11) =~= decimal(r1));
            assert(c2.skip(11) =~= decimal(r2));
            lemma_decimal_injective(r1, r2);
        } else {
            assert(c1.len() != c2.len());
        }
    }
}

/// The first fresh candidate lies in a round no later than the number of
/// reserved identifiers: each earlier round has its first candidate
/// reserved, and the first candidates of different rounds differ.
pub proof fn lemma_first_fresh_round_bound(reserved: Set<Seq<char>>, desired: char, name: Seq<char>)
    requires
        'A' <= desired <= 'Z',
        reserved.finite(),
        is_first_fresh(reserved, desired, name),
    ensures
        exists|round: nat, pos: int| round <= reserved.len() && 0 <= pos < 27 && name == #[trigger] candidate(desired, round, pos),
{
    let (round, pos) = choose|round: nat, pos: int| {
        &&& 0 <= pos < 27
        &&& name == #[trigger] candidate(desired, round, pos)
        &&& forall|r: nat, p: int|
            0 <= p < 27 && (r < round || (r == round && p < pos)) ==> reserved.contains(
                #[trigger] candidate(desired, r, p),
            )
    };
    let cands = Seq::new(round, |r: int| candidate(desired, r as nat, 0));
    assert forall|i: int, j: int| 0 <= i < cands.len() && 0 <= j < cands.len() && i != j implies
        cands[i] != cands[j] by {
        lemma_candidate_rounds_distinct(desired, i as nat, j as nat, 0);
    }
    assert(cands.no_duplicates());
    cands.unique_seq_to_set();
    assert forall|c: Seq<char>| cands.to_set().contains(c) implies reserved.contains(c) by {
        let i = choose|i: int| 0 <= i < cands.len() && cands[i] == c;
        assert(reserved.contains(candidate(desired, i as nat, 0)));
    }
    vstd::set_lib::lemma_len_subset(cands.to_set(), reserved);
    assert(name == candidate(desired, round, pos));
}

/// Appends a character to a string.
///
/// Calls `String::push`; the contract claims that the character is appended
/// at the end.
#[verifier::external_body]
pub(crate) fn string_push(s: &mut String, c: char)
    ensures
        final(s)@ == old(s)@.push(c),
{
    s.push(c)
}

/// Appends the decimal notation of `n` to `s`.
pub(crate) fn push_decimal(s: &mut String, n: usize)
    ensures
        final(s)@ == old(s)@ + decimal(n as nat),
    decreases n,
{
    if n >= 10 {
        push_decimal(s, n / 10);
    }
    let digit: u8 = (n % 10) as u8;
    string_push(s, (48u8 + digit) as char);
    assert(s@ =~= old(s)@ + decimal(n as nat));
}

/// Builds the candidate identifier at position `pos` of round `round`.
fn candidate_name(desired: char, round: usize, pos: u8) -> (name: String)
    requires
        'A' <= desired <= 'Z',
        pos < 27,
    ensures
        name@ == candidate(desired, round as nat, pos as int),
        is_plain_ident(name@),
{
    let d: u8 = desired as u8;
    let code: u8 = if pos <= 90u8 - d {
        d + pos
    } else {
        65u8 + (pos - (90u8 - d) - 1)
    };
    let letter = code as char;
    assert(letter == letter_at(desired, pos as int));
    if round == 0 {
        let mut s = String::new();
        string_push(&mut s, letter);
        assert(s@ =~= candidate(desired, round as nat, pos as int));
        s
    } else {
        let mut s = FRESH_PREFIX.to_owned();
        proof {
            reveal_strlit("__FUNCMAP_");
        }
        assert(s@ =~= fresh_prefix());
        string_push(&mut s, letter);
        if round >= 2 {
            push_decimal(&mut s, round);
        }
        proof {
            lemma_decimal_len(round as nat);
            assert forall|i: int| 0 <= i < decimal(round as nat).len() implies
                '0' <= #[trigger] decimal(round as nat)[i] <= '9' by {
                lemma_decimal_digits(round as nat, i);
            }
        }
        assert(s@ =~= candidate(desired, round as nat, pos as int));
        s
    }
}

proof fn lemma_decimal_digits(n: nat, i: int)
    requires
        0 <= i < decimal(n).len(),
    ensures
        '0' <= decimal(n)[i] <= '9',
    decreases n,
{
    if n >= 10 && i < decimal(n).len() - 1 {
        lemma_decimal_digits(n / 10, i);
    }
}

/// Collects unique identifiers for use in generated code.
#[derive(Debug)]
pub struct IdentCollector {
    idents: Vec<String>,
}

/// Wrapper around [`IdentCollector`] for the phase in which identifiers
/// occurring in the input are recorded.
///
/// Only [`IdentCollector`] can reserve new identifiers, and a
/// [`VisitingIdentCollector`] can only be turned into one through
/// [`into_reserved`](Self::into_reserved). This makes sure that all
/// identifiers of the input are recorded before any identifier is reserved.
#[derive(Debug)]
pub struct VisitingIdentCollector(IdentCollector);

impl IdentCollector {
    /// The identifiers reserved so far.
    pub closed spec fn reserved(&self) -> Set<Seq<char>> {
        self.idents@.map_values(|s: String| s@).to_set()
    }

    /// Creates an [`IdentCollector`] that has not reserved anything yet.
    pub fn new() -> (collector: IdentCollector)
        ensures
            collector.reserved() == Set::<Seq<char>>::empty(),
    {
        let collector = IdentCollector { idents: Vec::new() };
        assert(collector.reserved() =~= Set::<Seq<char>>::empty());
        collector
    }

    /// Creates a new [`VisitingIdentCollector`].
    pub fn new_visiting() -> (collector: VisitingIdentCollector)
        ensures
            collector@ == Set::<Seq<char>>::empty(),
    {
        VisitingIdentCollector(IdentCollector::new())
    }

    /// Whether `name` is reserved.
    pub fn contains(&self, name: &String) -> (found: bool)
        ensures
            found == self.reserved().contains(name@),
    {
        let ghost views = self.idents@.map_values(|s: String| s@);
        let mut i: usize = 0;
        while i < self.idents.len()
            invariant
                i <= self.idents.len(),
                views == self.idents@.map_values(|s: String| s@),
                forall|j: int| 0 <= j < i ==> views[j] != name@,
            decreases self.idents.len() - i,
        {
            if self.idents[i] == *name {
                assert(views[i as int] == name@);
                return true;
            }
            i += 1;
        }
        proof {
            if views.to_set().contains(name@) {
                let j = choose|j: int| 0 <= j < views.len() && views[j] == name@;
                assert(views[j] == name@);
            }
        }
        false
    }

    /// Reserves `name`.
    pub fn insert(&mut self, name: String)
        ensures
            final(self).reserved() == old(self).reserved().insert(name@),
    {
        let ghost old_views = self.idents@.map_values(|s: String| s@);
        self.idents.push(name);
        proof {
            let views = self.idents@.map_values(|s: String| s@);
            assert(views =~= old_views + seq![name@]);
            Seq::<Seq<char>>::lemma_to_set_insert_commutes(old_views, name@);
        }
    }

    /// Finds the first candidate identifier derived from `desired_letter`
    /// that is not reserved yet.
    ///
    /// The candidates are, in this order, the letters from `desired_letter`
    /// up to `Z` and then from `A` up to `desired_letter`; then the same
    /// letters behind `__FUNCMAP_`; then the same letters behind `__FUNCMAP_`
    /// followed by `2`, `3` and so on.
    pub fn find_uppercase_letter(&self, desired_letter: char) -> (letter: String)
        requires
            'A' <= desired_letter <= 'Z',
        ensures
            is_first_fresh(self.reserved(), desired_letter, letter@),
            is_plain_ident(letter@),
            exists|round: nat, pos: int| round <= self.reserved().len() && 0 <= pos < 27
                && letter@ == #[trigger] candidate(desired_letter, round, pos),
    {
        let n = self.idents.len();
        let mut round: usize = 0;
        loop
            invariant_except_break
                round <= n,
                'A' <= desired_letter <= 'Z',
                n == self.idents.len(),
                forall|r: nat, p: int|
                    r < round && 0 <= p < 27 ==> self.reserved().contains(
                        #[trigger] candidate(desired_letter, r, p),
                    ),
            ensures
                forall|r: nat| r <= n ==> self.reserved().contains(
                    #[trigger] candidate(desired_letter, r, 0),
                ),
            decreases n - round,
        {
            let mut pos: u8 = 0;
            while pos < 27
                invariant
                    pos <= 27,
                    round <= n,
                    'A' <= desired_letter <= 'Z',
                    forall|r: nat, p: int|
                        r < round && 0 <= p < 27 ==> self.reserved().contains(
                            #[trigger] candidate(desired_letter, r, p),
                        ),
                    forall|p: int|
                        0 <= p < pos ==> self.reserved().contains(
                            #[trigger] candidate(desired_letter, round as nat, p),
                        ),
                decreases 27 - pos,
            {
                let name = candidate_name(desired_letter, round, pos);
                if !self.contains(&name) {
                    proof {
                        assert(name@ == candidate(desired_letter, round as nat, pos as int));
                        assert(is_first_fresh(self.reserved(), desired_letter, name@));
                        vstd::seq_lib::seq_to_set_is_finite(self.idents@.map_values(|s: String| s@));
                        lemma_first_fresh_round_bound(self.reserved(), desired_letter, name@);
                    }
                    return name;
                }
                pos += 1;
            }
            if round == n {
                proof {
                    assert forall|r: nat| r <= n implies self.reserved().contains(
                        #[trigger] candidate(desired_letter, r, 0),
                    ) by {
                        if r < round {
                            assert(self.reserved().contains(candidate(desired_letter, r, 0)));
                        } else {
                            assert(self.reserved().contains(candidate(desired_letter, round as nat, 0)));
                        }
                    }
                }
                break;
            }
            round += 1;
        }
        proof {
            self.lemma_some_round_fresh(desired_letter);
        }
        unreached()
    }

    /// There are more distinct candidates in the first rounds than
    /// identifiers reserved, so one of them is not reserved.
    proof fn lemma_some_round_fresh(&self, desired: char)
        requires
            'A' <= desired <= 'Z',
        ensures
            exists|r: nat| r <= self.idents.len() && !self.reserved().contains(
                #[trigger] candidate(desired, r, 0),
            ),
    {
        if forall|r: nat| r <= self.idents.len() ==> self.reserved().contains(
            #[trigger] candidate(desired, r, 0),
        ) {
            self.lemma_all_reserved_impossible(desired);
        }
    }

    proof fn lemma_all_reserved_impossible(&self, desired: char)
        requires
            'A' <= desired <= 'Z',
            forall|r: nat| r <= self.idents.len() ==> self.reserved().contains(
                #[trigger] candidate(desired, r, 0),
            ),
        ensures
            self.idents.len() + 1 <= self.idents.len(),
    {
        let n = self.idents.len();
        let views = self.idents@.map_values(|s: String| s@);
        let cands = Seq::new((n + 1) as nat, |r: int| candidate(desired, r as nat, 0));
        assert forall|i: int, j: int| 0 <= i < cands.len() && 0 <= j < cands.len() && i != j implies
            cands[i] != cands[j] by {
            lemma_candidate_rounds_distinct(desired, i as nat, j as nat, 0);
        }
        assert(cands.no_duplicates());
        cands.unique_seq_to_set();
        views.lemma_cardinality_of_set();
        assert forall|c: Seq<char>| cands.to_set().contains(c) implies views.to_set().contains(c) by {
            let i = choose|i: int| 0 <= i < cands.len() && cands[i] == c;
            assert(self.reserved().contains(candidate(desired, i as nat, 0)));
        }
        vstd::seq_lib::seq_to_set_is_finite(views);
        vstd::set_lib::lemma_len_subset(cands.to_set(), views.to_set());
    }

    /// Reserves an uppercase-letter identifier with the given span.
    ///
    /// The reserved identifier is different from any identifier reserved
    /// before, whether by this method or by visiting the input. It is
    /// `desired_letter` if that is still available, and otherwise the first
    /// available candidate as described for
    /// [`find_uppercase_letter`](Self::find_uppercase_letter).
    pub fn reserve_uppercase_letter(&mut self, desired_letter: char, span: Span) -> (ident: Name)
        requires
            'A' <= desired_letter <= 'Z',
        ensures
            is_first_fresh(old(self).reserved(), desired_letter, ident@),
            is_plain_ident(ident@),
            ident.span == span,
            final(self).reserved() == old(self).reserved().insert(ident@),
    {
        let letter = self.find_uppercase_letter(desired_letter);
        let ident = Name { text: letter.clone(), span };
        self.insert(letter);
        ident
    }
}

impl VisitingIdentCollector {
    /// The identifiers recorded so far.
    pub closed spec fn view(&self) -> Set<Seq<char>> {
        self.0.reserved()
    }

    /// Records an identifier occurring in the input.
    pub fn visit_ident(&mut self, ident: String)
        ensures
            final(self)@ == old(self)@.insert(ident@),
    {
        self.0.insert(ident);
    }

    /// Turns this [`VisitingIdentCollector`] into an [`IdentCollector`],
    /// reserving all previously recorded identifiers.
    pub fn into_reserved(self) -> (collector: IdentCollector)
        ensures
            collector.reserved() == self@,
    {
        self.0
    }
}

} // verus!
