//! Reading the commands of the Universal Chess Interface.

use vstd::prelude::*;
use vstd::string::*;

use crate::fen::{
    all_digits, char_is_space, digits_value, is_digit, lemma_skip_space, lemma_word_end, skip_space,
    unsigned_digits, word_end, words_from,
};
use crate::game::{spec_fen_ok, spec_fen_position, spec_initial_position, spec_legal, Game};
use crate::movegen::{spec_pseudo_legal, ChessMove};
use crate::lan::{spec_lan_parse, LanMove};
use crate::make_unmake::lemma_make_shape;

verus! {

/// Whether two strings hold the same characters.
pub fn same_text(a: &str, b: &str) -> (r: bool)
    ensures
        r == (a@ == b@),
{
    let n = a.unicode_len();
    if n != b.unicode_len() {
        return false;
    }
    let mut i: usize = 0;
    while i < n
        invariant
            n == a@.len(),
            n == b@.len(),
            i <= n,
            forall|k: int| 0 <= k < i ==> a@[k] == b@[k],
        decreases n - i,
    {
        if a.get_char(i) != b.get_char(i) {
            return false;
        }
        i = i + 1;
    }
    proof {
        assert(a@ =~= b@);
    }
    true
}

/// A decimal number without sign: an optional `+` and at least one digit,
/// with a value that fits in a `u64`.
pub open spec fn spec_parse_u64(w: Seq<char>) -> Option<u64> {
    let d = unsigned_digits(w);
    if d.len() > 0 && all_digits(d) && digits_value(d) <= u64::MAX {
        Some(digits_value(d) as u64)
    } else {
        None
    }
}

/// Parses a string as a decimal `u64`.
pub fn parse_u64(text: &str) -> (r: Option<u64>)
    ensures
        r == spec_parse_u64(text@),
{
    let ghost w = text@;
    let end = text.unicode_len();
    let mut a: usize = 0;
    if a < end && text.get_char(a) == '+' {
        a = a + 1;
    }
    let ghost d = text@.subrange(a as int, end as int);
    proof {
        assert(d =~= unsigned_digits(w));
    }
    if a == end {
        return None;
    }
    let cap: u128 = 0x1_0000_0000_0000_0000;
    let mut acc: u128 = 0;
    let mut i = a;
    proof {
        assert(d.take(0) =~= Seq::<char>::empty());
    }
    while i < end
        invariant
            a <= i <= end,
            end == text@.len(),
            d == text@.subrange(a as int, end as int),
            w == text@,
            d == unsigned_digits(w),
            cap == 0x1_0000_0000_0000_0000u128,
            acc <= cap,
            acc == (if digits_value(d.take(i - a)) < cap { digits_value(d.take(i - a)) } else { cap as int }),
            digits_value(d.take(i - a)) >= 0,
            forall|j: int| 0 <= j < i - a ==> #[trigger] is_digit(d[j]),
        decreases end - i,
    {
        let c = text.get_char(i);
        if !('0' <= c && c <= '9') {
            proof {
                assert(d[i - a] == c);
                assert(!is_digit(d[i - a]));
                assert(!all_digits(d));
            }
            return None;
        }
        let digit = (c as u32 - '0' as u32) as u128;
        proof {
            assert(d.take(i + 1 - a).drop_last() =~= d.take(i - a));
            assert(d.take(i + 1 - a).last() == c);
        }
        let next = acc * 10 + digit;
        acc = if next < cap { next } else { cap };
        i = i + 1;
    }
    proof {
        assert(d.take(end - a) =~= d);
    }
    if acc < cap {
        Some(acc as u64)
    } else {
        None
    }
}

/// Where the search for a stop word ends: the index at which the text before
/// the stop word ends, and the index after the stop word. Scanning starts at
/// `i`; without the stop word both are the end of the text.
pub open spec fn until_from(s: Seq<char>, i: int, stop: Seq<char>) -> (int, int)
    decreases s.len() - i,
{
    if 0 <= i < s.len() {
        let a = skip_space(s, i);
        proof {
            lemma_skip_space(s, i);
            lemma_word_end(s, a);
        }
        if a >= s.len() {
            (a, a)
        } else if s.subrange(a, word_end(s, a)) == stop {
            (a, word_end(s, a))
        } else {
            until_from(s, word_end(s, a), stop)
        }
    } else {
        (s.len() as int, s.len() as int)
    }
}

pub proof fn lemma_until_from(s: Seq<char>, i: int, stop: Seq<char>)
    requires
        0 <= i <= s.len(),
    ensures
        i <= until_from(s, i, stop).0 <= until_from(s, i, stop).1 <= s.len(),
    decreases s.len() - i,
{
    if i < s.len() {
        let a = skip_space(s, i);
        lemma_skip_space(s, i);
        lemma_word_end(s, a);
        if a < s.len() && s.subrange(a, word_end(s, a)) != stop {
            lemma_until_from(s, word_end(s, a), stop);
        }
    }
}

/// The first word of the text from `i` on starts after the white space there.
pub proof fn lemma_words_from_step(s: Seq<char>, i: int)
    requires
        0 <= i <= s.len(),
    ensures
        skip_space(s, i) >= s.len() ==> words_from(s, i).len() == 0,
        skip_space(s, i) < s.len() ==> words_from(s, i).len() > 0 && words_from(s, i)[0] == s.subrange(
            skip_space(s, i),
            word_end(s, skip_space(s, i)),
        ) && words_from(s, word_end(s, skip_space(s, i))) == words_from(s, i).drop_first(),
{
    let a = skip_space(s, i);
    lemma_skip_space(s, i);
    lemma_word_end(s, a);
    if a < s.len() {
        assert(words_from(s, i) == seq![s.subrange(a, word_end(s, a))] + words_from(s, word_end(s, a)));
        assert(words_from(s, i).drop_first() =~= words_from(s, word_end(s, a)));
    }
}

/// A reading position in a line of text.
#[derive(Debug, Clone, Copy)]
pub struct Cursor<'line> {
    line: &'line str,
    pos: usize,
    len: usize,
}

impl<'line> Cursor<'line> {
    /// The whole line.
    pub closed spec fn text(self) -> Seq<char> {
        self.line@
    }

    /// The index of the next character to read.
    pub closed spec fn at(self) -> int {
        self.pos as int
    }

    /// The position lies within the line.
    pub closed spec fn wf(self) -> bool {
        &&& self.len == self.line@.len()
        &&& self.pos <= self.len
    }

    /// Starts reading a line from its beginning.
    pub fn new(line: &'line str) -> (r: Self)
        ensures
            r.wf(),
            r.text() == line@,
            r.at() == 0,
    {
        Cursor { line, pos: 0, len: line.unicode_len() }
    }

    /// Whether the whole line has been read.
    pub fn is_empty(&self) -> (r: bool)
        requires
            self.wf(),
        ensures
            r == (self.at() == self.text().len()),
    {
        self.pos >= self.len
    }

    /// Reads past white space.
    fn skip_whitespace(&mut self)
        requires
            old(self).wf(),
        ensures
            final(self).wf(),
            final(self).text() == old(self).text(),
            final(self).at() == skip_space(old(self).text(), old(self).at()),
    {
        let ghost s = self.text();
        let ghost i0 = self.at();
        while self.pos < self.len && char_is_space(self.line.get_char(self.pos))
            invariant
                self.wf(),
                self.text() == s,
                i0 <= self.at(),
                skip_space(s, self.at()) == skip_space(s, i0),
            decreases self.len - self.pos,
        {
            self.pos = self.pos + 1;
        }
        proof {
            lemma_skip_space(s, self.at());
        }
    }

    /// Reads the next word of the line, the white space before it included,
    /// or `None` when only white space is left (which it reads).
    pub fn next_token(&mut self) -> (r: Option<&'line str>)
        requires
            old(self).wf(),
        ensures
            final(self).wf(),
            final(self).text() == old(self).text(),
            ({
                let s = old(self).text();
                let a = skip_space(s, old(self).at());
                &&& r is None <==> a >= s.len()
                &&& r is None ==> final(self).at() == s.len()
                &&& r is Some ==> old(self).at() < final(self).at()
                &&& r matches Some(t) ==> t@ == s.subrange(a, word_end(s, a)) && final(self).at() == word_end(
                    s,
                    a,
                )
            }),
    {
        let ghost s = self.text();
        self.skip_whitespace();
        proof {
            lemma_skip_space(s, old(self).at());
        }
        if self.pos >= self.len {
            return None;
        }
        let a = self.pos;
        while self.pos < self.len && !char_is_space(self.line.get_char(self.pos))
            invariant
                self.wf(),
                self.text() == s,
                a <= self.at(),
                word_end(s, self.at()) == word_end(s, a as int),
            decreases self.len - self.pos,
        {
            self.pos = self.pos + 1;
        }
        proof {
            lemma_word_end(s, a as int);
        }
        Some(self.line.substring_char(a, self.pos))
    }

    /// Reads up to and including the next word equal to `stop`, and returns
    /// the text before that word (from the current position to the word's
    /// start). Without such a word the whole rest of the line is read and
    /// returned.
    pub fn until_token(&mut self, stop: &str) -> (r: &'line str)
        requires
            old(self).wf(),
        ensures
            final(self).wf(),
            final(self).text() == old(self).text(),
            ({
                let s = old(self).text();
                let g = until_from(s, old(self).at(), stop@);
                &&& r@ == s.subrange(old(self).at(), g.0)
                &&& final(self).at() == g.1
            }),
    {
        let ghost s = self.text();
        let ghost goal = until_from(s, self.at(), stop@);
        proof {
            lemma_until_from(s, self.at(), stop@);
        }
        let before = self.pos;
        let mut after = self.pos;
        let mut found = false;
        while !found && self.pos < self.len
            invariant
                self.wf(),
                self.text() == s,
                before <= after <= self.at(),
                goal == until_from(s, before as int, stop@),
                !found ==> until_from(s, self.at(), stop@) == goal,
                found ==> goal == (after as int, self.at()),
            decreases self.len - self.pos, (if found { 0int } else { 1int }),
        {
            let ghost i = self.at();
            self.skip_whitespace();
            proof {
                lemma_skip_space(s, i);
                lemma_word_end(s, self.at());
            }
            after = self.pos;
            match self.next_token() {
                None => {},
                Some(t) => {
                    if same_text(t, stop) {
                        found = true;
                    }
                },
            }
        }
        proof {
            lemma_until_from(s, before as int, stop@);
        }
        if !found {
            after = self.pos;
        }
        self.line.substring_char(before, after)
    }
}

/// Parameters for the "go" UCI command. Times are in milliseconds.
#[derive(Debug, Clone, PartialEq, Eq)]
pub struct Go {
    /// Search only these moves.
    pub searchmoves: Option<Vec<LanMove>>,
    /// Search in ponder mode.
    pub ponder: bool,
    /// Remaining time for white.
    pub wtime: Option<u64>,
    /// Remaining time for black.
    pub btime: Option<u64>,
    /// Time increment for white.
    pub winc: Option<u64>,
    /// Time increment for black.
    pub binc: Option<u64>,
    /// Moves until the next time control (cyclic time controls).
    pub movestogo: Option<u64>,
    /// Do not search beyond this depth.
    pub depth: Option<u64>,
    /// Do not search more than this many nodes.
    pub nodes: Option<u64>,
    /// Do not search further if mate in that many (or less) moves is found.
    pub mate: Option<u64>,
    /// Stop the search if it continues for longer than that.
    pub movetime: Option<u64>,
    /// Do not exit the search unless explicitly told to.
    pub infinite: bool,
}

/// The parameters of a "go" command as values.
pub struct GoModel {
    pub searchmoves: Option<Seq<LanMove>>,
    pub ponder: bool,
    pub wtime: Option<u64>,
    pub btime: Option<u64>,
    pub winc: Option<u64>,
    pub binc: Option<u64>,
    pub movestogo: Option<u64>,
    pub depth: Option<u64>,
    pub nodes: Option<u64>,
    pub mate: Option<u64>,
    pub movetime: Option<u64>,
    pub infinite: bool,
}

/// No parameter given.
pub open spec fn go_model_empty() -> GoModel {
    GoModel {
        searchmoves: None,
        ponder: false,
        wtime: None,
        btime: None,
        winc: None,
        binc: None,
        movestogo: None,
        depth: None,
        nodes: None,
        mate: None,
        movetime: None,
        infinite: false,
    }
}

impl Go {
    /// The parameters as values.
    pub open spec fn model(self) -> GoModel {
        GoModel {
            searchmoves: match self.searchmoves {
                Some(v) => Some(v@),
                None => None,
            },
            ponder: self.ponder,
            wtime: self.wtime,
            btime: self.btime,
            winc: self.winc,
            binc: self.binc,
            movestogo: self.movestogo,
            depth: self.depth,
            nodes: self.nodes,
            mate: self.mate,
            movetime: self.movetime,
            infinite: self.infinite,
        }
    }
}

impl Default for Go {
    fn default() -> (r: Self)
        ensures
            r.model() == go_model_empty(),
    {
        Go {
            searchmoves: None,
            ponder: false,
            wtime: None,
            btime: None,
            winc: None,
            binc: None,
            movestogo: None,
            depth: None,
            nodes: None,
            mate: None,
            movetime: None,
            infinite: false,
        }
    }
}

/// The number of words from index `j` on that name moves in LAN, one after
/// the other.
pub open spec fn lan_run(w: Seq<Seq<char>>, j: int) -> nat
    decreases w.len() - j,
{
    if 0 <= j < w.len() && spec_lan_parse(w[j]) is Some {
        1 + lan_run(w, j + 1)
    } else {
        0
    }
}

pub proof fn lemma_lan_run(w: Seq<Seq<char>>, j: int)
    requires
        0 <= j,
    ensures
        j + lan_run(w, j) <= w.len() || lan_run(w, j) == 0,
        forall|k: int| j <= k < j + lan_run(w, j) ==> #[trigger] spec_lan_parse(w[k]) is Some,
    decreases w.len() - j,
{
    if 0 <= j < w.len() && spec_lan_parse(w[j]) is Some {
        lemma_lan_run(w, j + 1);
    }
}

/// The moves that `n` words from index `j` on name.
pub open spec fn lan_list(w: Seq<Seq<char>>, j: int, n: int) -> Seq<LanMove> {
    Seq::new(n as nat, |k: int| spec_lan_parse(w[j + k]).unwrap())
}

/// The number the word at `j` holds, if there is one.
pub open spec fn number_at(w: Seq<Seq<char>>, j: int) -> Option<u64> {
    if 0 <= j < w.len() {
        spec_parse_u64(w[j])
    } else {
        None
    }
}

/// How many words a number at `j` takes: one, if there is a number.
pub open spec fn number_len(w: Seq<Seq<char>>, j: int) -> int {
    if number_at(w, j) is Some {
        1
    } else {
        0
    }
}

/// The first of two options that is set.
pub open spec fn first_set(a: Option<u64>, b: Option<u64>) -> Option<u64> {
    if a is Some {
        a
    } else {
        b
    }
}

/// The parameters of a "go" command read from the words at index `i` on,
/// onto those given so far. A parameter given twice keeps its first value;
/// a word that names no parameter is passed over, and so is a parameter
/// whose value is missing.
pub open spec fn go_fold(w: Seq<Seq<char>>, i: int, g: GoModel) -> GoModel
    decreases w.len() - i,
{
    if 0 <= i < w.len() {
        let t = w[i];
        let k = number_at(w, i + 1);
        let after = i + 1 + number_len(w, i + 1);
        if t == "searchmoves"@ {
            let n = lan_run(w, i + 1);
            proof {
                lemma_lan_run(w, i + 1);
            }
            go_fold(
                w,
                i + 1 + n,
                GoModel {
                    searchmoves: if g.searchmoves is Some {
                        g.searchmoves
                    } else {
                        Some(lan_list(w, i + 1, n as int))
                    },
                    ..g
                },
            )
        } else if t == "ponder"@ {
            go_fold(w, i + 1, GoModel { ponder: true, ..g })
        } else if t == "wtime"@ {
            go_fold(w, after, GoModel { wtime: first_set(g.wtime, k), ..g })
        } else if t == "btime"@ {
            go_fold(w, after, GoModel { btime: first_set(g.btime, k), ..g })
        } else if t == "winc"@ {
            go_fold(w, after, GoModel { winc: first_set(g.winc, k), ..g })
        } else if t == "binc"@ {
            go_fold(w, after, GoModel { binc: first_set(g.binc, k), ..g })
        } else if t == "movetime"@ {
            go_fold(w, after, GoModel { movetime: first_set(g.movetime, k), ..g })
        } else if t == "movestogo"@ {
            go_fold(w, after, GoModel { movestogo: first_set(g.movestogo, k), ..g })
        } else if t == "depth"@ {
            go_fold(w, after, GoModel { depth: first_set(g.depth, k), ..g })
        } else if t == "nodes"@ {
            go_fold(w, after, GoModel { nodes: first_set(g.nodes, k), ..g })
        } else if t == "mate"@ {
            go_fold(w, after, GoModel { mate: first_set(g.mate, k), ..g })
        } else if t == "infinite"@ {
            go_fold(w, i + 1, GoModel { infinite: true, ..g })
        } else {
            go_fold(w, i + 1, g)
        }
    } else {
        g
    }
}

impl<'line> Cursor<'line> {
    /// Reads the next word if it holds a decimal `u64`, and returns its value.
    fn try_parse_u64(&mut self) -> (r: Option<u64>)
        requires
            old(self).wf(),
        ensures
            final(self).wf(),
            final(self).text() == old(self).text(),
            old(self).at() <= final(self).at(),
            ({
                let ws = words_from(old(self).text(), old(self).at());
                &&& r == number_at(ws, 0)
                &&& words_from(old(self).text(), final(self).at()) == ws.skip(number_len(ws, 0))
            }),
    {
        let ghost s = self.text();
        let ghost ws = words_from(s, self.at());
        proof {
            lemma_words_from_step(s, self.at());
            assert(ws.skip(0) =~= ws);
            assert(ws.skip(1) =~= ws.drop_first());
        }
        let mut peek = *self;
        let res = match peek.next_token() {
            Some(t) => parse_u64(t),
            None => None,
        };
        if res.is_some() {
            *self = peek;
        }
        res
    }

    /// Reads the parameters of a "go" command.
    fn parse_go(&mut self) -> (r: Go)
        requires
            old(self).wf(),
        ensures
            final(self).wf(),
            r.model() == go_fold(words_from(old(self).text(), old(self).at()), 0, go_model_empty()),
    {
        let ghost s = self.text();
        let ghost w = words_from(s, self.at());
        let ghost mut idx: int = 0;
        let mut go = Go::default();
        let mut done = false;
        proof {
            assert(w.skip(0) =~= w);
        }
        while !done
            invariant
                self.wf(),
                self.text() == s,
                0 <= idx <= w.len(),
                words_from(s, self.at()) == w.skip(idx),
                !done ==> go_fold(w, idx, go.model()) == go_fold(w, 0, go_model_empty()),
                done ==> go.model() == go_fold(w, 0, go_model_empty()),
            decreases s.len() - self.at(), (if done { 0int } else { 1int }),
        {
            proof {
                lemma_words_from_step(s, self.at());
            }
            match self.next_token() {
                None => {
                    done = true;
                },
                Some(token) => {
                    proof {
                        assert(token@ == w[idx]);
                        assert(w.skip(idx).drop_first() =~= w.skip(idx + 1));
                    }
                    let ghost p1 = self.at();
                    if same_text(token, "searchmoves") {
                        let mut moves: Vec<LanMove> = Vec::new();
                        let mut more = true;
                        proof {
                            assert(moves@ =~= lan_list(w, idx + 1, 0));
                        }
                        while more
                            invariant
                                self.wf(),
                                self.text() == s,
                                p1 <= self.at(),
                                0 <= idx < w.len(),
                                idx + 1 + moves@.len() <= w.len(),
                                words_from(s, self.at()) == w.skip(idx + 1 + moves@.len()),
                                more ==> lan_run(w, idx + 1) == moves@.len() + lan_run(w, idx + 1 + moves@.len()),
                                !more ==> lan_run(w, idx + 1) == moves@.len(),
                                moves@ == lan_list(w, idx + 1, moves@.len() as int),
                            decreases s.len() - self.at(), (if more { 1int } else { 0int }),
                        {
                            let ghost j = idx + 1 + moves@.len();
                            let mut peek = *self;
                            proof {
                                lemma_words_from_step(s, peek.at());
                            }
                            let parsed = match peek.next_token() {
                                Some(t) => {
                                    proof {
                                        assert(t@ == w[j]);
                                    }
                                    match LanMove::parse(t) {
                                        Ok(m) => Some(m),
                                        Err(_) => None,
                                    }
                                },
                                None => None,
                            };
                            match parsed {
                                Some(m) => {
                                    *self = peek;
                                    let ghost old_moves = moves@;
                                    moves.push(m);
                                    proof {
                                        assert(w.skip(j).drop_first() =~= w.skip(j + 1));
                                        assert(moves@ =~= lan_list(w, idx + 1, moves@.len() as int));
                                    }
                                },
                                None => {
                                    more = false;
                                },
                            }
                        }
                        proof {
                            idx = idx + 1 + moves@.len();
                        }
                        if go.searchmoves.is_none() {
                            go.searchmoves = Some(moves);
                        }
                    } else if same_text(token, "ponder") {
                        go.ponder = true;
                        proof {
                            idx = idx + 1;
                        }
                    } else if same_text(token, "wtime") {
                        let v = self.try_parse_u64();
                        proof {
                            assert(number_at(w.skip(idx + 1), 0) == number_at(w, idx + 1));
                            assert(w.skip(idx + 1).skip(number_len(w, idx + 1)) =~= w.skip(idx + 1 + number_len(w, idx + 1)));
                            idx = idx + 1 + number_len(w, idx + 1);
                        }
                        if go.wtime.is_none() {
                            go.wtime = v;
                        }
                    } else if same_text(token, "btime") {
                        let v = self.try_parse_u64();
                        proof {
                            assert(number_at(w.skip(idx + 1), 0) == number_at(w, idx + 1));
                            assert(w.skip(idx + 1).skip(number_len(w, idx + 1)) =~= w.skip(idx + 1 + number_len(w, idx + 1)));
                            idx = idx + 1 + number_len(w, idx + 1);
                        }
                        if go.btime.is_none() {
                            go.btime = v;
                        }
                    } else if same_text(token, "winc") {
                        let v = self.try_parse_u64();
                        proof {
                            assert(number_at(w.skip(idx + 1), 0) == number_at(w, idx + 1));
                            assert(w.skip(idx + 1).skip(number_len(w, idx + 1)) =~= w.skip(idx + 1 + number_len(w, idx + 1)));
                            idx = idx + 1 + number_len(w, idx + 1);
                        }
                        if go.winc.is_none() {
                            go.winc = v;
                        }
                    } else if same_text(token, "binc") {
                        let v = self.try_parse_u64();
                        proof {
                            assert(number_at(w.skip(idx + 1), 0) == number_at(w, idx + 1));
                            assert(w.skip(idx + 1).skip(number_len(w, idx + 1)) =~= w.skip(idx + 1 + number_len(w, idx + 1)));
                            idx = idx + 1 + number_len(w, idx + 1);
                        }
                        if go.binc.is_none() {
                            go.binc = v;
                        }
                    } else if same_text(token, "movetime") {
                        let v = self.try_parse_u64();
                        proof {
                            assert(number_at(w.skip(idx + 1), 0) == number_at(w, idx + 1));
                            assert(w.skip(idx + 1).skip(number_len(w, idx + 1)) =~= w.skip(idx + 1 + number_len(w, idx + 1)));
                            idx = idx + 1 + number_len(w, idx + 1);
                        }
                        if go.movetime.is_none() {
                            go.movetime = v;
                        }
                    } else if same_text(token, "movestogo") {
                        let v = self.try_parse_u64();
                        proof {
                            assert(number_at(w.skip(idx + 1), 0) == number_at(w, idx + 1));
                            assert(w.skip(idx + 1).skip(number_len(w, idx + 1)) =~= w.skip(idx + 1 + number_len(w, idx + 1)));
                            idx = idx + 1 + number_len(w, idx + 1);
                        }
                        if go.movestogo.is_none() {
                            go.movestogo = v;
                        }
                    } else if same_text(token, "depth") {
                        let v = self.try_parse_u64();
                        proof {
                            assert(number_at(w.skip(idx + 1), 0) == number_at(w, idx + 1));
                            assert(w.skip(idx + 1).skip(number_len(w, idx + 1)) =~= w.skip(idx + 1 + number_len(w, idx + 1)));
                            idx = idx + 1 + number_len(w, idx + 1);
                        }
                        if go.depth.is_none() {
                            go.depth = v;
                        }
                    } else if same_text(token, "nodes") {
                        let v = self.try_parse_u64();
                        proof {
                            assert(number_at(w.skip(idx + 1), 0) == number_at(w, idx + 1));
                            assert(w.skip(idx + 1).skip(number_len(w, idx + 1)) =~= w.skip(idx + 1 + number_len(w, idx + 1)));
                            idx = idx + 1 + number_len(w, idx + 1);
                        }
                        if go.nodes.is_none() {
                            go.nodes = v;
                        }
                    } else if same_text(token, "mate") {
                        let v = self.try_parse_u64();
                        proof {
                            assert(number_at(w.skip(idx + 1), 0) == number_at(w, idx + 1));
                            assert(w.skip(idx + 1).skip(number_len(w, idx + 1)) =~= w.skip(idx + 1 + number_len(w, idx + 1)));
                            idx = idx + 1 + number_len(w, idx + 1);
                        }
                        if go.mate.is_none() {
                            go.mate = v;
                        }
                    } else if same_text(token, "infinite") {
                        go.infinite = true;
                        proof {
                            idx = idx + 1;
                        }
                    } else {
                        proof {
                            idx = idx + 1;
                        }
                    }
                },
            }
        }
        go
    }
}

/// A UCI command.
#[derive(Clone)]
pub enum Command {
    /// \>\> uci - UCI handshake.
    Uci,
    /// \>\> isready - UCI ping.
    IsReady,
    /// \>\> ucinewgame - clear hash table.
    UciNewGame,
    /// \>\> position ... - setup position.
    Position(Game),
    /// \>\> go ... - start search.
    Go(Go),
    /// \>\> stop - stop search.
    Stop,
    /// \>\> ponderhit - exit pondering mode.
    PonderHit,
    /// \>\> quit - terminate the program.
    Quit,
}

/// Where a list of moves in LAN stops being made on a game: every word is
/// made, or the next word does not read as a move, or no generated move of
/// the position reached bears its name, or the move of that name is not legal
/// there.
pub open spec fn moves_stop(moves: Seq<Seq<char>>, g: Game) -> bool {
    g.shistory().len() < moves.len() ==> match spec_lan_parse(moves[g.shistory().len() as int]) {
        None => true,
        Some(lan) => (forall|m: ChessMove| #[trigger] g.spos().spec_generated(m) ==> m.spec_lan() != lan) || exists|
            m: ChessMove,
        | #[trigger] spec_pseudo_legal(g.spos(), m) && m.spec_lan() == lan && !spec_legal(g.spos(), m),
    }
}

/// The game a "position" command sets up, with the arguments of the command
/// from index `i` of the line on: `startpos`, or `fen` and a FEN text, then
/// optionally `moves` and moves in LAN. The moves are made one after the
/// other while each names a legal move; a FEN text that does not parse
/// gives the starting position without moves.
pub open spec fn position_result(s: Seq<char>, i: int, g: Game) -> bool {
    let a = skip_space(s, i);
    let has_fen = a < s.len() && s.subrange(a, word_end(s, a)) == "fen"@;
    let j = if a < s.len() { word_end(s, a) } else { s.len() as int };
    let u = until_from(s, j, "moves"@);
    let fen = s.subrange(j, u.0);
    let moves = words_from(s, u.1);
    &&& g.wf()
    &&& if has_fen && !spec_fen_ok(fen) {
        g.shistory().len() == 0 && spec_initial_position(g.spos())
    } else {
        &&& has_fen ==> spec_fen_position(g.start(), fen)
        &&& !has_fen ==> spec_initial_position(g.start())
        &&& g.shistory().len() <= moves.len()
        &&& forall|k: int|
            0 <= k < g.shistory().len() ==> spec_lan_parse(#[trigger] moves[k]) == Some(
                g.shistory()[k].unmove.chess_move.spec_lan(),
            )
        &&& moves_stop(moves, g)
    }
}

/// The words after "moves" in the arguments of a "position" command that
/// start at index `i` of the line.
pub open spec fn position_moves(s: Seq<char>, i: int) -> Seq<Seq<char>> {
    let a = skip_space(s, i);
    let j = if a < s.len() { word_end(s, a) } else { s.len() as int };
    words_from(s, until_from(s, j, "moves"@).1)
}

/// Whether the arguments of a "position" command that start at index `i` of
/// the line give a FEN text that does not parse.
pub open spec fn position_fen_rejected(s: Seq<char>, i: int) -> bool {
    let a = skip_space(s, i);
    let j = if a < s.len() { word_end(s, a) } else { s.len() as int };
    &&& a < s.len() && s.subrange(a, word_end(s, a)) == "fen"@
    &&& !spec_fen_ok(s.subrange(j, until_from(s, j, "moves"@).0))
}

/// A "position" command makes every listed move while it can: when the game
/// it sets up has made fewer moves than were listed and the next word names
/// moves that are all legal where the game stands, no generated move of that
/// position bears the name. (A FEN text that does not parse sets up the
/// starting position and makes no move.)
pub proof fn lemma_position_makes_legal_moves(s: Seq<char>, i: int, g: Game)
    requires
        position_result(s, i, g),
        !position_fen_rejected(s, i),
    ensures
        ({
            let moves = position_moves(s, i);
            let n = g.shistory().len() as int;
            n < moves.len() && spec_lan_parse(moves[n]) is Some && (forall|m: ChessMove|
                #[trigger] spec_pseudo_legal(g.spos(), m) && m.spec_lan() == spec_lan_parse(moves[n]).unwrap()
                ==> spec_legal(g.spos(), m)) ==> forall|m: ChessMove| #[trigger] g.spos().spec_generated(m)
                ==> m.spec_lan() != spec_lan_parse(moves[n]).unwrap()
        }),
{
}

impl<'line> Cursor<'line> {
    /// Reads the arguments of a "position" command.
    fn parse_position(&mut self) -> (r: Command)
        requires
            old(self).wf(),
        ensures
            r matches Command::Position(g) && position_result(old(self).text(), old(self).at(), g),
    {
        let ghost s = self.text();
        let ghost i = self.at();
        proof {
            lemma_skip_space(s, i);
            lemma_word_end(s, skip_space(s, i));
        }
        let has_fen = match self.next_token() {
            Some(t) => same_text(t, "fen"),
            None => false,
        };
        let ghost j = self.at();
        proof {
            lemma_until_from(s, j, "moves"@);
        }
        let fen_str = self.until_token("moves");
        let base = if has_fen {
            match Game::try_from_fen(fen_str) {
                Ok(g) => Some(g),
                Err(_) => None,
            }
        } else {
            Some(Game::initial_position())
        };
        let mut game = match base {
            Some(g) => g,
            None => {
                return Command::Position(Game::initial_position());
            },
        };
        let ghost moves = words_from(s, self.at());
        let ghost start = game.start();
        let mut done = false;
        proof {
            assert(moves.skip(0) =~= moves);
        }
        while !done
            invariant
                self.wf(),
                self.text() == s,
                game.wf(),
                game.start() == start,
                game.shistory().len() <= moves.len(),
                !done ==> words_from(s, self.at()) == moves.skip(game.shistory().len() as int),
                done ==> moves_stop(moves, game),
                forall|k: int|
                    0 <= k < game.shistory().len() ==> spec_lan_parse(#[trigger] moves[k]) == Some(
                        game.shistory()[k].unmove.chess_move.spec_lan(),
                    ),
            decreases s.len() - self.at(), (if done { 0int } else { 1int }),
        {
            let ghost n = game.shistory().len() as int;
            proof {
                lemma_words_from_step(s, self.at());
            }
            match self.next_token() {
                None => {
                    done = true;
                },
                Some(t) => {
                    proof {
                        assert(t@ == moves[n]);
                        assert(moves.skip(n).drop_first() =~= moves.skip(n + 1));
                    }
                    match LanMove::parse(t) {
                        Err(_) => {
                            done = true;
                        },
                        Ok(lan) => {
                            match game.lan_move(lan) {
                                None => {
                                    done = true;
                                },
                                Some(m) => {
                                    let ghost p = game.spos();
                                    let ghost h = game.shistory();
                                    if game.try_make_move(m) {
                                        proof {
                                            lemma_make_shape(p, m);
                                            assert forall|k: int| 0 <= k < game.shistory().len() implies spec_lan_parse(
                                                #[trigger] moves[k],
                                            ) == Some(game.shistory()[k].unmove.chess_move.spec_lan()) by {
                                                if k < n {
                                                    assert(game.shistory()[k] == h[k]);
                                                }
                                            }
                                        }
                                    } else {
                                        done = true;
                                    }
                                },
                            }
                        },
                    }
                },
            }
        }
        Command::Position(game)
    }
}

impl Command {
    /// What a line of UCI input reads as: nothing on an empty line, else the
    /// command its first word names (with what follows it for "position" and
    /// "go"), or nothing for any other word.
    pub open spec fn spec_parsed(s: Seq<char>, r: Option<Command>) -> bool {
        let w = words_from(s, 0);
        let e = word_end(s, skip_space(s, 0));
        &&& w.len() == 0 ==> r is None
        &&& w.len() > 0 ==> {
            let t = w[0];
            if t == "uci"@ {
                r == Some(Command::Uci)
            } else if t == "isready"@ {
                r == Some(Command::IsReady)
            } else if t == "ucinewgame"@ {
                r == Some(Command::UciNewGame)
            } else if t == "position"@ {
                r matches Some(Command::Position(g)) && position_result(s, e, g)
            } else if t == "go"@ {
                r matches Some(Command::Go(g)) && g.model() == go_fold(w.drop_first(), 0, go_model_empty())
            } else if t == "stop"@ {
                r == Some(Command::Stop)
            } else if t == "ponderhit"@ {
                r == Some(Command::PonderHit)
            } else if t == "quit"@ {
                r == Some(Command::Quit)
            } else {
                r is None
            }
        }
    }

    /// Parses a line holding a UCI command: its first word names the command
    /// and the words after it are the command's arguments.
    pub fn parse(line: &str) -> (r: Option<Command>)
        ensures
            Command::spec_parsed(line@, r),
    {
        let mut cursor = Cursor::new(line);
        proof {
            lemma_words_from_step(line@, 0);
        }
        let token = match cursor.next_token() {
            Some(t) => t,
            None => {
                return None;
            },
        };
        if same_text(token, "uci") {
            Some(Command::Uci)
        } else if same_text(token, "isready") {
            Some(Command::IsReady)
        } else if same_text(token, "ucinewgame") {
            Some(Command::UciNewGame)
        } else if same_text(token, "position") {
            Some(cursor.parse_position())
        } else if same_text(token, "go") {
            Some(Command::Go(cursor.parse_go()))
        } else if same_text(token, "stop") {
            Some(Command::Stop)
        } else if same_text(token, "ponderhit") {
            Some(Command::PonderHit)
        } else if same_text(token, "quit") {
            Some(Command::Quit)
        } else {
            None
        }
    }
}

impl std::str::FromStr for Command {
    type Err = ();

    fn from_str(s: &str) -> (r: Result<Self, Self::Err>)
        ensures
            Command::spec_parsed(
                s@,
                match r {
                    Ok(c) => Some(c),
                    Err(_) => None,
                },
            ),
    {
        match Command::parse(s) {
            Some(c) => Ok(c),
            None => Err(()),
        }
    }
}

} // verus!
