//! Parameter lists of the form `grid_count=10,investment=8.0`.

use vstd::prelude::*;

use crate::binary64::decimal::number_text;
use crate::binary64::B64;
use crate::settings::looked_up;
use crate::table::Table;
use crate::text::{
    chars_of, find_separator, i64_value, next_separator, parse_i64, parse_usize, piece, string_of, trim, trimmed,
    usize_value,
};

verus! {

/// Parameters by name.
#[derive(Debug)]
pub struct Params {
    pub table: Table<String>,
}

impl View for Params {
    type V = Map<Seq<char>, Seq<char>>;

    open spec fn view(&self) -> Map<Seq<char>, Seq<char>> {
        self.table@.map_values(|s: String| s@)
    }
}

/// One more pair; a piece without an equals sign is none.
pub open spec fn with_pair(m: Map<Seq<char>, Seq<char>>, piece: Seq<char>) -> Map<Seq<char>, Seq<char>> {
    let eq = next_separator(piece, seq!['='], 0);
    if eq == piece.len() {
        m
    } else {
        m.insert(
            trimmed(piece.subrange(0, eq)),
            trimmed(piece.subrange(eq + 1, piece.len() as int)),
        )
    }
}

/// The pairs from a place on; of two with one name the later counts.
pub open spec fn pairs_from(s: Seq<char>, start: int, m: Map<Seq<char>, Seq<char>>) -> Map<Seq<char>, Seq<char>>
    decreases s.len() - start,
{
    let end = next_separator(s, seq![','], start);
    if start < 0 || end < start {
        m
    } else if end >= s.len() {
        with_pair(m, s.subrange(start, s.len() as int))
    } else {
        pairs_from(s, end + 1, with_pair(m, s.subrange(start, end)))
    }
}

/// The parameters in a list.
pub open spec fn params_of(s: Seq<char>) -> Map<Seq<char>, Seq<char>> {
    pairs_from(s, 0, Map::empty())
}

/// A parameter under the first of two names that is given.
pub open spec fn either(m: Map<Seq<char>, Seq<char>>, key: Seq<char>, other: Seq<char>) -> Option<Seq<char>> {
    match looked_up(m, key) {
        Some(v) => Some(v),
        None => looked_up(m, other),
    }
}

pub open spec fn number_or(v: Option<Seq<char>>, default: B64) -> B64 {
    match v {
        Some(s) => match number_text(s) {
            Some(x) => x,
            None => default,
        },
        None => default,
    }
}

pub open spec fn count_or(v: Option<Seq<char>>, default: usize) -> usize {
    match v {
        Some(s) => match usize_value(s) {
            Some(n) => n,
            None => default,
        },
        None => default,
    }
}

pub open spec fn integer_or(v: Option<Seq<char>>, default: i64) -> i64 {
    match v {
        Some(s) => match i64_value(s) {
            Some(n) => n,
            None => default,
        },
        None => default,
    }
}

impl Params {
    pub open spec fn wf(&self) -> bool {
        self.table.wf()
    }

    fn add_pair(&mut self, pair: &[char])
        requires
            old(self).wf(),
        ensures
            final(self).wf(),
            final(self)@ == with_pair(old(self)@, pair@),
    {
        let ghost before = self@;
        let equals: [char; 1] = ['='];
        assert(equals@ == seq!['=']);
        let eq: usize = find_separator(pair, &equals, 0);
        if eq == pair.len() {
            return;
        }
        let key = string_of(&trim(&piece(pair, 0, eq)));
        let value = string_of(&trim(&piece(pair, eq + 1, pair.len())));
        let ghost text = value@;
        self.table.insert(key.as_str(), value);
        assert(self@ =~= before.insert(key@, text));
    }

    /// Reads a list.
    pub fn parse(list: &str) -> (r: Params)
        ensures
            r.wf(),
            r@ == params_of(list@),
    {
        let s = chars_of(list);
        let mut r = Params { table: Table::new() };
        assert(r@ =~= Map::<Seq<char>, Seq<char>>::empty());
        let comma: [char; 1] = [','];
        assert(comma@ == seq![',']);
        let mut start: usize = 0;
        loop
            invariant
                start <= s.len(),
                s@ == list@,
                comma@ == seq![','],
                r.wf(),
                pairs_from(s@, start as int, r@) == params_of(list@),
            decreases s.len() - start,
        {
            let end: usize = find_separator(&s, &comma, start);
            r.add_pair(&piece(&s, start, end));
            if end == s.len() {
                return r;
            }
            start = end + 1;
        }
    }

    pub fn get(&self, key: &str) -> (r: Option<&str>)
        requires
            self.wf(),
        ensures
            match r {
                Some(s) => looked_up(self@, key@) == Some(s@),
                None => looked_up(self@, key@) is None,
            },
    {
        match self.table.get(key) {
            Some(s) => Some(s.as_str()),
            None => None,
        }
    }

    pub fn get_either(&self, key: &str, other: &str) -> (r: Option<&str>)
        requires
            self.wf(),
        ensures
            match r {
                Some(s) => either(self@, key@, other@) == Some(s@),
                None => either(self@, key@, other@) is None,
            },
    {
        match self.get(key) {
            Some(s) => Some(s),
            None => self.get(other),
        }
    }

    pub fn number(&self, key: &str, default: B64) -> (r: B64)
        requires
            self.wf(),
        ensures
            r == number_or(looked_up(self@, key@), default),
    {
        match self.get(key) {
            Some(s) => match B64::parse(&chars_of(s)) {
                Some(x) => x,
                None => default,
            },
            None => default,
        }
    }

    pub fn number_either(&self, key: &str, other: &str, default: B64) -> (r: B64)
        requires
            self.wf(),
        ensures
            r == number_or(either(self@, key@, other@), default),
    {
        match self.get_either(key, other) {
            Some(s) => match B64::parse(&chars_of(s)) {
                Some(x) => x,
                None => default,
            },
            None => default,
        }
    }

    pub fn count(&self, key: &str, default: usize) -> (r: usize)
        requires
            self.wf(),
        ensures
            r == count_or(looked_up(self@, key@), default),
    {
        match self.get(key) {
            Some(s) => match parse_usize(&chars_of(s)) {
                Some(n) => n,
                None => default,
            },
            None => default,
        }
    }

    pub fn integer(&self, key: &str, default: i64) -> (r: i64)
        requires
            self.wf(),
        ensures
            r == integer_or(looked_up(self@, key@), default),
    {
        match self.get(key) {
            Some(s) => match parse_i64(&chars_of(s)) {
                Some(n) => n,
                None => default,
            },
            None => default,
        }
    }
}

} // verus!
