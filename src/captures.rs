use vstd::prelude::*;

verus! {

/// The text that each capture group matched, slot `i - 1` for group `i`.
#[derive(Debug)]
pub struct Captures(pub Vec<Option<Vec<char>>>);

pub open spec fn slot_view(o: Option<Vec<char>>) -> Option<Seq<char>> {
    match o {
        Some(v) => Some(v@),
        None => None,
    }
}

/// The store after group `index` records `value`. An index outside `1..=len`
/// leaves the store as it was.
pub open spec fn set_capture(
    caps: Seq<Option<Seq<char>>>,
    index: int,
    value: Seq<char>,
) -> Seq<Option<Seq<char>>> {
    if 1 <= index <= caps.len() {
        caps.update(index - 1, Some(value))
    } else {
        caps
    }
}

/// What group `index` recorded; nothing for an index outside `1..=len`.
pub open spec fn capture_of(caps: Seq<Option<Seq<char>>>, index: int) -> Option<Seq<char>> {
    if 1 <= index <= caps.len() {
        caps[index - 1]
    } else {
        None
    }
}

impl View for Captures {
    type V = Seq<Option<Seq<char>>>;

    open spec fn view(&self) -> Seq<Option<Seq<char>>> {
        self.0@.map_values(|o: Option<Vec<char>>| slot_view(o))
    }
}

/// Relies on `String`'s `FromIterator<&char>`: the string holds the given characters in order.
#[verifier::external_body]
fn string_of(chars: &Vec<char>) -> (r: String)
    ensures
        r@ == chars@,
{
    chars.iter().collect()
}

pub(crate) fn copy_chars(v: &[char]) -> (r: Vec<char>)
    ensures
        r@ == v@,
{
    let mut out: Vec<char> = Vec::new();
    let mut i: usize = 0;
    while i < v.len()
        invariant
            i <= v@.len(),
            out@ == v@.subrange(0, i as int),
        decreases v@.len() - i,
    {
        out.push(v[i]);
        i = i + 1;
    }
    assert(out@ == v@);
    out
}

impl Captures {
    /// A store of `capture_count` unset slots.
    pub fn new(capture_count: usize) -> (r: Self)
        ensures
            r@ == Seq::<Option<Seq<char>>>::new(capture_count as nat, |i: int| None),
    {
        let mut slots: Vec<Option<Vec<char>>> = Vec::new();
        let mut i: usize = 0;
        while i < capture_count
            invariant
                i <= capture_count,
                slots@.len() == i,
                forall|j: int| 0 <= j < i ==> slots@[j] is None,
            decreases capture_count - i,
        {
            slots.push(None);
            i = i + 1;
        }
        let r = Captures(slots);
        assert(r@ =~= Seq::<Option<Seq<char>>>::new(capture_count as nat, |i: int| None));
        r
    }

    /// Records `value` for group `index`; an index outside `1..=len` changes nothing.
    pub fn capture(&mut self, value: &[char], index: usize)
        ensures
            final(self)@ == set_capture(old(self)@, index as int, value@),
    {
        if 1 <= index && index <= self.0.len() {
            let v = copy_chars(value);
            self.0.set(index - 1, Some(v));
            assert(final(self)@ =~= set_capture(old(self)@, index as int, value@));
        }
    }

    /// The text recorded for group `idx`, if any.
    pub fn get_capture(&self, idx: usize) -> (r: Option<String>)
        ensures
            r matches Some(s) ==> capture_of(self@, idx as int) == Some(s@),
            r is None ==> capture_of(self@, idx as int) is None,
    {
        if 1 <= idx && idx <= self.0.len() {
            match &self.0[idx - 1] {
                Some(v) => Some(string_of(v)),
                None => None,
            }
        } else {
            None
        }
    }

    /// The number of slots.
    pub fn len(&self) -> (r: usize)
        ensures
            r == self@.len(),
    {
        self.0.len()
    }

    /// An independent copy with the same contents.
    pub fn duplicate(&self) -> (r: Self)
        ensures
            r@ == self@,
    {
        let mut slots: Vec<Option<Vec<char>>> = Vec::new();
        let mut i: usize = 0;
        while i < self.0.len()
            invariant
                i <= self.0@.len(),
                slots@.len() == i,
                forall|j: int| 0 <= j < i ==> slot_view(#[trigger] slots@[j]) == slot_view(self.0@[j]),
            decreases self.0@.len() - i,
        {
            let s = match &self.0[i] {
                Some(v) => Some(copy_chars(v.as_slice())),
                None => None,
            };
            slots.push(s);
            i = i + 1;
        }
        let r = Captures(slots);
        assert(r@ =~= self@);
        r
    }
}

} // verus!
