use vstd::prelude::*;

verus! {

/// A frequency ratio relative to the tonic, as a fraction `num / den`.
#[derive(Clone, Copy, PartialEq, Eq, Structural, Debug)]
pub struct Ratio {
    pub num: u32,
    pub den: u32,
}

#[derive(Clone, Debug)]
pub struct Note {
    pub name: String,
    pub frequency_ratio: Ratio,
}

/// A characteristic phrase and how much it counts for its raag.
#[derive(Clone, Debug)]
pub struct PhrasePattern {
    pub notes: Vec<Note>,
    pub weight: u32,
}

#[derive(Clone, Debug)]
pub struct Raag {
    pub name: String,
    pub aroha: Vec<Note>,
    pub avaroha: Vec<Note>,
    pub vadi: Note,
    pub samvadi: Note,
    pub characteristic_phrases: Vec<PhrasePattern>,
    pub thaat: String,
}

/// The raags known to the matcher, looked up by name.
pub struct RaagDatabase {
    pub raags: Vec<Raag>,
}

/// The frequency ratios of a note sequence, in order.
pub open spec fn ratios_of(notes: Seq<Note>) -> Seq<Ratio> {
    notes.map_values(|n: Note| n.frequency_ratio)
}

/// The names of a note sequence, in order.
pub open spec fn names_of(notes: Seq<Note>) -> Seq<Seq<char>> {
    notes.map_values(|n: Note| n.name@)
}

/// No two raags share a name.
pub open spec fn names_unique(raags: Seq<Raag>) -> bool {
    forall|i: int, j: int| 0 <= i < j < raags.len() ==> raags[i].name@ != raags[j].name@
}

/// The index of the first raag named `name`, if any.
pub open spec fn first_named(raags: Seq<Raag>, name: Seq<char>, i: int) -> bool {
    &&& 0 <= i < raags.len()
    &&& raags[i].name@ == name
    &&& forall|j: int| 0 <= j < i ==> raags[j].name@ != name
}

fn note(name: &str, num: u32, den: u32) -> (r: Note)
    ensures
        r.name@ == name@,
        r.frequency_ratio == (Ratio { num, den }),
{
    Note { name: name.to_owned(), frequency_ratio: Ratio { num, den } }
}

/// Whether two strings hold the same characters.
pub fn str_eq(a: &str, b: &str) -> (r: bool)
    ensures
        r == (a@ == b@),
{
    let n = a.unicode_len();
    if n != b.unicode_len() {
        return false;
    }
    let mut i: usize = 0;
    while i < n
        invariant
            n == a@.len() == b@.len(),
            i <= n,
            forall|k: int| 0 <= k < i ==> a@[k] == b@[k],
        decreases n - i,
    {
        if a.get_char(i) != b.get_char(i) {
            return false;
        }
        i = i + 1;
    }
    assert(a@ =~= b@);
    true
}

impl RaagDatabase {
    /// Raags are keyed by their names, which are unique.
    pub open spec fn well_formed(&self) -> bool {
        names_unique(self.raags@)
    }

    /// The database of common raags.
    pub fn new() -> (r: Self)
        ensures
            r.well_formed(),
            r.raags.len() == 1,
            r.raags[0].name@ == "Yaman"@,
            r.raags[0].thaat@ == "Kalyan"@,
            ratios_of(r.raags[0].aroha@) == seq![
                Ratio { num: 1, den: 1 },
                Ratio { num: 9, den: 8 },
                Ratio { num: 5, den: 4 },
                Ratio { num: 45, den: 32 },
                Ratio { num: 3, den: 2 },
                Ratio { num: 27, den: 16 },
                Ratio { num: 15, den: 8 },
            ],
            ratios_of(r.raags[0].avaroha@) == seq![
                Ratio { num: 2, den: 1 },
                Ratio { num: 15, den: 8 },
                Ratio { num: 27, den: 16 },
                Ratio { num: 3, den: 2 },
                Ratio { num: 45, den: 32 },
                Ratio { num: 5, den: 4 },
                Ratio { num: 9, den: 8 },
                Ratio { num: 1, den: 1 },
            ],
            r.raags[0].vadi.frequency_ratio == (Ratio { num: 5, den: 4 }),
            r.raags[0].samvadi.frequency_ratio == (Ratio { num: 15, den: 8 }),
            names_of(r.raags[0].aroha@) == seq!["Sa"@, "Re"@, "Ga"@, "Ma#"@, "Pa"@, "Dha"@, "Ni"@],
            names_of(r.raags[0].avaroha@) == seq!["Sa"@, "Ni"@, "Dha"@, "Pa"@, "Ma#"@, "Ga"@, "Re"@, "Sa"@],
            r.raags[0].vadi.name@ == "Ga"@,
            r.raags[0].samvadi.name@ == "Ni"@,
            r.raags[0].characteristic_phrases.len() == 0,
    {
        RaagDatabase { raags: Self::initialize_common_raags() }
    }

    /// A database holding exactly the given raags.
    pub fn from_raags(raags: Vec<Raag>) -> (r: Self)
        requires
            names_unique(raags@),
        ensures
            r.well_formed(),
            r.raags@ == raags@,
    {
        RaagDatabase { raags }
    }

    pub fn get_raags(&self) -> (r: &Vec<Raag>)
        ensures
            r@ == self.raags@,
    {
        &self.raags
    }

    /// The first raag with the given name, if there is one.
    pub fn find_raag(&self, name: &str) -> (r: Option<&Raag>)
        ensures
            r.is_none() <==> forall|j: int| 0 <= j < self.raags.len() ==> self.raags[j].name@ != name@,
            r.is_some() ==> exists|i: int|
                first_named(self.raags@, name@, i) && r.unwrap() == &self.raags[i],
    {
        let mut i: usize = 0;
        while i < self.raags.len()
            invariant
                i <= self.raags.len(),
                forall|j: int| 0 <= j < i ==> self.raags[j].name@ != name@,
            decreases self.raags.len() - i,
        {
            if str_eq(self.raags[i].name.as_str(), name) {
                assert(first_named(self.raags@, name@, i as int));
                return Some(&self.raags[i]);
            }
            i = i + 1;
        }
        None
    }

    fn initialize_common_raags() -> (r: Vec<Raag>)
        ensures
            r.len() == 1,
            r[0].name@ == "Yaman"@,
            r[0].thaat@ == "Kalyan"@,
            ratios_of(r[0].aroha@) == seq![
                Ratio { num: 1, den: 1 },
                Ratio { num: 9, den: 8 },
                Ratio { num: 5, den: 4 },
                Ratio { num: 45, den: 32 },
                Ratio { num: 3, den: 2 },
                Ratio { num: 27, den: 16 },
                Ratio { num: 15, den: 8 },
            ],
            ratios_of(r[0].avaroha@) == seq![
                Ratio { num: 2, den: 1 },
                Ratio { num: 15, den: 8 },
                Ratio { num: 27, den: 16 },
                Ratio { num: 3, den: 2 },
                Ratio { num: 45, den: 32 },
                Ratio { num: 5, den: 4 },
                Ratio { num: 9, den: 8 },
                Ratio { num: 1, den: 1 },
            ],
            r[0].vadi.frequency_ratio == (Ratio { num: 5, den: 4 }),
            r[0].samvadi.frequency_ratio == (Ratio { num: 15, den: 8 }),
            names_of(r[0].aroha@) == seq!["Sa"@, "Re"@, "Ga"@, "Ma#"@, "Pa"@, "Dha"@, "Ni"@],
            names_of(r[0].avaroha@) == seq!["Sa"@, "Ni"@, "Dha"@, "Pa"@, "Ma#"@, "Ga"@, "Re"@, "Sa"@],
            r[0].vadi.name@ == "Ga"@,
            r[0].samvadi.name@ == "Ni"@,
            r[0].characteristic_phrases.len() == 0,
    {
        let aroha = vec![
            note("Sa", 1, 1),
            note("Re", 9, 8),
            note("Ga", 5, 4),
            note("Ma#", 45, 32),
            note("Pa", 3, 2),
            note("Dha", 27, 16),
            note("Ni", 15, 8),
        ];
        let avaroha = vec![
            note("Sa", 2, 1),
            note("Ni", 15, 8),
            note("Dha", 27, 16),
            note("Pa", 3, 2),
            note("Ma#", 45, 32),
            note("Ga", 5, 4),
            note("Re", 9, 8),
            note("Sa", 1, 1),
        ];
        let yaman = Raag {
            name: "Yaman".to_owned(),
            aroha,
            avaroha,
            vadi: note("Ga", 5, 4),
            samvadi: note("Ni", 15, 8),
            characteristic_phrases: Vec::new(),
            thaat: "Kalyan".to_owned(),
        };
        proof {
            assert(names_of(yaman.aroha@) =~= seq!["Sa"@, "Re"@, "Ga"@, "Ma#"@, "Pa"@, "Dha"@, "Ni"@]);
            assert(names_of(yaman.avaroha@) =~= seq!["Sa"@, "Ni"@, "Dha"@, "Pa"@, "Ma#"@, "Ga"@, "Re"@, "Sa"@]);
            assert(ratios_of(yaman.aroha@) =~= seq![
                Ratio { num: 1, den: 1 },
                Ratio { num: 9, den: 8 },
                Ratio { num: 5, den: 4 },
                Ratio { num: 45, den: 32 },
                Ratio { num: 3, den: 2 },
                Ratio { num: 27, den: 16 },
                Ratio { num: 15, den: 8 },
            ]);
            assert(ratios_of(yaman.avaroha@) =~= seq![
                Ratio { num: 2, den: 1 },
                Ratio { num: 15, den: 8 },
                Ratio { num: 27, den: 16 },
                Ratio { num: 3, den: 2 },
                Ratio { num: 45, den: 32 },
                Ratio { num: 5, den: 4 },
                Ratio { num: 9, den: 8 },
                Ratio { num: 1, den: 1 },
            ]);
        }
        vec![yaman]
    }
}

} // verus!
