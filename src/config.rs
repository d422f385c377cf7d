//! Read-only configuration snapshot: string values by key, with typed
//! lookups and defaults for missing keys.
use vstd::prelude::*;

verus! {

/// Key/value pairs; a later entry for a key shadows an earlier one.
#[derive(Debug)]
pub struct Config {
    entries: Vec<(String, String)>,
}

/// Value of `key` in `entries`: the last entry with that key.
pub open spec fn lookup(entries: Seq<(Seq<char>, Seq<char>)>, key: Seq<char>) -> Option<Seq<char>>
    decreases entries.len(),
{
    if entries.len() == 0 {
        None
    } else if entries.last().0 == key {
        Some(entries.last().1)
    } else {
        lookup(entries.drop_last(), key)
    }
}

/// Value of a decimal string, when it is one (digits only, at least one).
pub open spec fn decimal_value(s: Seq<char>) -> Option<nat>
    decreases s.len(),
{
    if s.len() == 0 {
        None
    } else {
        let c = s.last();
        if '0' <= c && c <= '9' {
            let d = (c as nat - '0' as nat) as nat;
            if s.len() == 1 {
                Some(d)
            } else {
                match decimal_value(s.drop_last()) {
                    Some(v) => Some(v * 10 + d),
                    None => None,
                }
            }
        } else {
            None
        }
    }
}

impl View for Config {
    type V = Seq<(Seq<char>, Seq<char>)>;

    closed spec fn view(&self) -> Seq<(Seq<char>, Seq<char>)> {
        self.entries@.map_values(|e: (String, String)| (e.0@, e.1@))
    }
}

impl Config {
    /// An empty configuration.
    pub fn new() -> (r: Config)
        ensures
            r@ == Seq::<(Seq<char>, Seq<char>)>::empty(),
    {
        let r = Config { entries: Vec::new() };
        assert(r@ =~= Seq::<(Seq<char>, Seq<char>)>::empty());
        r
    }

    /// Set `key` to `value`.
    pub fn set(&mut self, key: &str, value: &str)
        ensures
            final(self)@ == old(self)@.push((key@, value@)),
    {
        let ghost before = self.entries@;
        self.entries.push((key.to_owned(), value.to_owned()));
        assert(self.entries@.map_values(|e: (String, String)| (e.0@, e.1@)) =~= before.map_values(
            |e: (String, String)| (e.0@, e.1@),
        ).push((key@, value@)));
    }

    /// Value of `key`, if set.
    pub fn get(&self, key: &str) -> (r: Option<&str>)
        ensures
            match r {
                Some(v) => lookup(self@, key@) == Some(v@),
                None => lookup(self@, key@) is None,
            },
    {
        let k = key.to_owned();
        let mut i: usize = self.entries.len();
        assert(self@.take(i as int) =~= self@);
        while i > 0
            invariant
                i <= self.entries.len(),
                k@ == key@,
                lookup(self@, key@) == lookup(self@.take(i as int), key@),
            decreases i,
        {
            proof {
                assert(self@.take(i as int).drop_last() == self@.take(i - 1));
                assert(self@.take(i as int).last() == self@[i - 1]);
            }
            if self.entries[i - 1].0 == k {
                return Some(self.entries[i - 1].1.as_str());
            }
            i -= 1;
        }
        None
    }

    /// Integer value of `key`, or `default` when it is missing or not a
    /// decimal number that fits.
    pub fn get_usize(&self, key: &str, default: usize) -> (r: usize)
        ensures
            r == (match lookup(self@, key@) {
                Some(v) => match decimal_value(v) {
                    Some(n) => if n <= usize::MAX { n as usize } else { default },
                    None => default,
                },
                None => default,
            }),
    {
        match self.get(key) {
            None => default,
            Some(v) => match parse_decimal(v) {
                Some(n) => n,
                None => default,
            },
        }
    }
}

/// Value of a decimal string, when it is one and fits.
pub fn parse_decimal(s: &str) -> (r: Option<usize>)
    ensures
        r == (match decimal_value(s@) {
            Some(n) => if n <= usize::MAX { Some(n as usize) } else { None },
            None => None,
        }),
{
    let mut acc: usize = 0;
    let mut overflow = false;
    let mut i: usize = 0;
    let n = s.unicode_len();
    if n == 0 {
        return None;
    }
    while i < n
        invariant
            n == s@.len(),
            0 < n,
            i <= n,
            forall|j: int| 0 < j <= i ==> decimal_value(#[trigger] s@.take(j)) is Some,
            i > 0 ==> !overflow ==> decimal_value(s@.take(i as int)) == Some(acc as nat),
            i > 0 ==> overflow ==> decimal_value(s@.take(i as int))->0 > usize::MAX,
            i == 0 ==> !overflow && acc == 0,
        decreases n - i,
    {
        let c = s.get_char(i);
        proof {
            assert(s@.take(i + 1).drop_last() == s@.take(i as int));
            assert(s@.take(i + 1).last() == c);
        }
        if !('0' <= c && c <= '9') {
            proof {
                lemma_decimal_prefix(s@, i + 1, n as int);
            }
            return None;
        }
        let d = (c as u32 - '0' as u32) as usize;
        if !overflow {
            if acc > (usize::MAX - d) / 10 {
                overflow = true;
            } else {
                acc = acc * 10 + d;
            }
        }
        i += 1;
    }
    assert(s@.take(n as int) == s@);
    if overflow {
        None
    } else {
        Some(acc)
    }
}

proof fn lemma_decimal_prefix(s: Seq<char>, j: int, n: int)
    requires
        0 < j <= n == s.len(),
        decimal_value(s.take(j)) is None,
    ensures
        decimal_value(s) is None,
    decreases n - j,
{
    if j < n {
        assert(s.take(j + 1).drop_last() == s.take(j));
        lemma_decimal_prefix(s, j + 1, n);
    } else {
        assert(s.take(j) == s);
    }
}

/// Output directory for side files: the `output_dir` setting, or ".".
pub fn get_output_dir(config: &Config) -> (r: &str)
    ensures
        r@ == (match lookup(config@, "output_dir"@) {
            Some(v) => v,
            None => "."@,
        }),
{
    match config.get("output_dir") {
        Some(v) => v,
        None => ".",
    }
}

} // verus!
