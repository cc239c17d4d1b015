//! The modules that the records of the stack trace name, without those of
//! the operating system.

use vstd::prelude::*;
use crate::text::{before_first, contains, find_char, has_substring, lemma_first_index_of, lowercase_of, string_of, to_chars, to_lowercase};
use crate::tokens::{split_whitespace, tokens_of};

verus! {

/// A module of the operating system: its name holds `ntdll`, `kernel32` or
/// `kernelbase`, wherever in the name.
pub open spec fn is_system_module(name: Seq<char>) -> bool {
    ||| has_substring(name, "ntdll"@)
    ||| has_substring(name, "kernel32"@)
    ||| has_substring(name, "kernelbase"@)
}

/// The module field of a stack record: its fourth word. `None` where the
/// record has fewer than four words.
pub open spec fn module_field(record: Seq<char>) -> Option<Seq<char>> {
    let words = tokens_of(record);
    if words.len() >= 4 {
        Some(words[3])
    } else {
        None
    }
}

/// The name in a module field: what stands before its first `@`.
pub open spec fn module_name(field: Seq<char>) -> Seq<char> {
    before_first(field, '@')
}

/// The module that a stack record names, in lower case. `None` where the
/// record has fewer than four words.
pub open spec fn candidate(record: Seq<char>) -> Option<Seq<char>> {
    match module_field(record) {
        Some(field) => Some(lowercase_of(module_name(field))),
        None => None,
    }
}

/// `culprits` after the module `name` was considered: it joins at the end
/// unless it is a module of the operating system or is there already.
pub open spec fn culprits_with(culprits: Seq<Seq<char>>, name: Seq<char>) -> Seq<Seq<char>> {
    if is_system_module(name) || culprits.contains(name) {
        culprits
    } else {
        culprits.push(name)
    }
}

/// `culprits` after the stack record `record` was read.
pub open spec fn culprits_after(culprits: Seq<Seq<char>>, record: Seq<char>) -> Seq<Seq<char>> {
    match candidate(record) {
        Some(name) => culprits_with(culprits, name),
        None => culprits,
    }
}

/// The culprits that `records` name, each once, in the order in which the
/// records first name them.
pub open spec fn culprits_of(records: Seq<Seq<char>>) -> Seq<Seq<char>>
    decreases records.len(),
{
    if records.len() == 0 {
        Seq::empty()
    } else {
        culprits_after(culprits_of(records.drop_last()), records.last())
    }
}

/// The lines from `start` on; none where `start` is no line.
pub open spec fn stack_region(lines: Seq<Seq<char>>, start: nat) -> Seq<Seq<char>> {
    if start <= lines.len() {
        lines.skip(start as int)
    } else {
        Seq::empty()
    }
}

/// The records of the stack trace: the lines from where the scan has set its
/// start; none where it has set none.
pub open spec fn stack_records(lines: Seq<Seq<char>>, start: Option<nat>) -> Seq<Seq<char>> {
    match start {
        Some(index) => stack_region(lines, index),
        None => Seq::empty(),
    }
}

/// One of `records` names the module `name`.
pub open spec fn named_by(records: Seq<Seq<char>>, name: Seq<char>) -> bool {
    exists|i: int| 0 <= i < records.len() && candidate(#[trigger] records[i]) == Some(name)
}

/// No culprit is a module of the operating system, each is named by one of
/// the records, and none stands twice.
pub proof fn lemma_culprits_sound(records: Seq<Seq<char>>)
    ensures
        culprits_of(records).no_duplicates(),
        forall|k: int|
            0 <= k < culprits_of(records).len() ==> !is_system_module(
                #[trigger] culprits_of(records)[k],
            ),
        forall|k: int|
            0 <= k < culprits_of(records).len() ==> named_by(
                records,
                #[trigger] culprits_of(records)[k],
            ),
    decreases records.len(),
{
    if records.len() > 0 {
        let front = records.drop_last();
        lemma_culprits_sound(front);
        let before = culprits_of(front);
        let after = culprits_of(records);
        assert forall|k: int| 0 <= k < after.len() implies named_by(records, #[trigger] after[k]) by {
            if k < before.len() {
                assert(after[k] == before[k]);
                assert(named_by(front, before[k]));
                let i = choose|i: int|
                    0 <= i < front.len() && candidate(#[trigger] front[i]) == Some(before[k]);
                assert(records[i] == front[i]);
            } else {
                assert(candidate(records[records.len() - 1]) == Some(after[k]));
            }
        }
        assert forall|k: int| 0 <= k < after.len() implies !is_system_module(
            #[trigger] after[k],
        ) by {
            if k < before.len() {
                assert(after[k] == before[k]);
            }
        }
        assert forall|i: int, j: int| 0 <= i < after.len() && 0 <= j < after.len() && i != j
            implies after[i] != after[j] by {
            if i < before.len() && j < before.len() {
                assert(after[i] == before[i] && after[j] == before[j]);
            } else if i < before.len() {
                assert(after[i] == before[i]);
                assert(before.contains(before[i]));
            } else if j < before.len() {
                assert(after[j] == before[j]);
                assert(before.contains(before[j]));
            }
        }
    }
}

/// Every module that a record names and that is no module of the operating
/// system is among the culprits.
pub proof fn lemma_culprits_complete(records: Seq<Seq<char>>, i: int)
    requires
        0 <= i < records.len(),
        candidate(records[i]) is Some,
        !is_system_module(candidate(records[i])->0),
    ensures
        culprits_of(records).contains(candidate(records[i])->0),
    decreases records.len(),
{
    let front = records.drop_last();
    let before = culprits_of(front);
    let after = culprits_of(records);
    let name = candidate(records[i])->0;
    if i < records.len() - 1 {
        assert(front[i] == records[i]);
        lemma_culprits_complete(front, i);
        let k = choose|k: int| 0 <= k < before.len() && before[k] == name;
        assert(after[k] == name);
    } else if before.contains(name) {
        let k = choose|k: int| 0 <= k < before.len() && before[k] == name;
        assert(after[k] == name);
    } else {
        assert(after[after.len() - 1] == name);
    }
}

/// A record whose module is one of the operating system names no culprit:
/// that module is not among the culprits, whatever the other records hold.
pub proof fn lemma_system_modules_filtered(records: Seq<Seq<char>>, i: int)
    requires
        0 <= i < records.len(),
        candidate(records[i]) is Some,
        is_system_module(candidate(records[i])->0),
    ensures
        !culprits_of(records).contains(candidate(records[i])->0),
{
    lemma_culprits_sound(records);
}

/// The name in a module field holds no `@`: what follows the first `@` of
/// the field, that character included, is left out.
pub proof fn lemma_module_name_without_suffix(field: Seq<char>)
    ensures
        forall|j: int| 0 <= j < module_name(field).len() ==> module_name(field)[j] != '@',
        module_name(field).len() <= field.len(),
        module_name(field) == field.take(module_name(field).len() as int),
        module_name(field).len() < field.len() ==> field[module_name(field).len() as int] == '@',
{
    lemma_first_index_of(field, '@');
}

/// A record with fewer than four words changes nothing.
pub proof fn lemma_short_record_ignored(culprits: Seq<Seq<char>>, record: Seq<char>)
    requires
        tokens_of(record).len() < 4,
    ensures
        culprits_after(culprits, record) == culprits,
{
}

/// The three texts that tell a module of the operating system, as characters.
pub struct SystemModules {
    ntdll: Vec<char>,
    kernel32: Vec<char>,
    kernelbase: Vec<char>,
}

impl SystemModules {
    /// Each field holds its text.
    pub closed spec fn wf(&self) -> bool {
        &&& self.ntdll@ == "ntdll"@
        &&& self.kernel32@ == "kernel32"@
        &&& self.kernelbase@ == "kernelbase"@
    }

    /// The three texts.
    pub fn new() -> (texts: SystemModules)
        ensures
            texts.wf(),
    {
        SystemModules {
            ntdll: to_chars("ntdll"),
            kernel32: to_chars("kernel32"),
            kernelbase: to_chars("kernelbase"),
        }
    }

    /// Whether `name` is a module of the operating system.
    pub fn matches(&self, name: &[char]) -> (system: bool)
        requires
            self.wf(),
        ensures
            system == is_system_module(name@),
    {
        contains(name, self.ntdll.as_slice()) || contains(name, self.kernel32.as_slice())
            || contains(name, self.kernelbase.as_slice())
    }
}

/// Whether the module `name`, given in lower case, is one of the operating system.
pub fn is_system_module_name(name: &str) -> (system: bool)
    ensures
        system == is_system_module(name@),
{
    let texts = SystemModules::new();
    let chars = to_chars(name);
    texts.matches(chars.as_slice())
}

/// Module names in the order in which they were first met, each once.
#[derive(Debug, Clone, PartialEq, Eq)]
pub struct CulpritSet {
    names: Vec<String>,
}

impl View for CulpritSet {
    type V = Seq<Seq<char>>;

    closed spec fn view(&self) -> Seq<Seq<char>> {
        self.names.deep_view()
    }
}

impl CulpritSet {
    /// No name stands twice.
    pub open spec fn wf(&self) -> bool {
        self@.no_duplicates()
    }

    /// The set without names.
    pub fn new() -> (set: CulpritSet)
        ensures
            set@ == Seq::<Seq<char>>::empty(),
            set.wf(),
    {
        let set = CulpritSet { names: Vec::new() };
        assert(set@ =~= Seq::<Seq<char>>::empty());
        set
    }

    /// The number of names.
    pub fn len(&self) -> (n: usize)
        ensures
            n == self@.len(),
    {
        self.names.len()
    }

    /// Whether there is no name.
    pub fn is_empty(&self) -> (empty: bool)
        ensures
            empty == (self@.len() == 0),
    {
        self.names.len() == 0
    }

    /// The name at `i`.
    pub fn get(&self, i: usize) -> (name: &String)
        requires
            i < self@.len(),
        ensures
            name@ == self@[i as int],
    {
        &self.names[i]
    }

    /// Whether `name` is in the set.
    pub fn contains(&self, name: &str) -> (found: bool)
        ensures
            found == self@.contains(name@),
    {
        let owned = name.to_owned();
        let mut at: usize = 0;
        while at < self.names.len()
            invariant
                at <= self@.len(),
                self@.len() == self.names@.len(),
                owned@ == name@,
                forall|j: int| 0 <= j < at ==> self@[j] != name@,
            decreases self.names.len() - at,
        {
            if self.names[at] == owned {
                assert(self@[at as int] == name@);
                return true;
            }
            at += 1;
        }
        false
    }

    /// Considers the module `name`, given in lower case: it joins the set
    /// unless it is a module of the operating system or is there already.
    pub fn consider(&mut self, system: &SystemModules, name: String)
        requires
            system.wf(),
            old(self).wf(),
        ensures
            final(self)@ == culprits_with(old(self)@, name@),
            final(self).wf(),
    {
        let chars = to_chars(name.as_str());
        if !system.matches(chars.as_slice()) && !self.contains(name.as_str()) {
            let ghost before = self@;
            self.names.push(name);
            assert(self@ =~= before.push(name@));
            assert forall|i: int, j: int| 0 <= i < self@.len() && 0 <= j < self@.len() && i != j
                implies self@[i] != self@[j] by {
                if i < before.len() {
                    assert(before.contains(before[i]));
                }
                if j < before.len() {
                    assert(before.contains(before[j]));
                }
            }
        }
    }
}

/// The module that the stack record `record` names, in lower case. `None`
/// where the record has fewer than four words.
pub fn culprit_candidate(record: &str) -> (name: Option<String>)
    ensures
        name is Some <==> candidate(record@) is Some,
        name matches Some(n) ==> Some(n@) == candidate(record@),
{
    let chars = to_chars(record);
    let words = split_whitespace(chars.as_slice());
    if words.len() >= 4 {
        assert(words.deep_view()[3] == words@[3]@);
        let field = to_chars(words[3].as_str());
        let cut = find_char(field.as_slice(), '@');
        let raw = string_of(field.as_slice(), 0, cut);
        Some(to_lowercase(raw.as_str()))
    } else {
        None
    }
}

/// The culprits that the lines from `start` on name.
pub fn extract_culprits(lines: &Vec<String>, start: usize) -> (culprits: CulpritSet)
    ensures
        culprits@ == culprits_of(stack_region(lines.deep_view(), start as nat)),
        culprits.wf(),
{
    let system = SystemModules::new();
    let mut culprits = CulpritSet::new();
    if start > lines.len() {
        return culprits;
    }
    let ghost region = stack_region(lines.deep_view(), start as nat);
    let mut at: usize = start;
    assert(region.take(0) =~= Seq::<Seq<char>>::empty());
    while at < lines.len()
        invariant
            system.wf(),
            start <= at <= lines@.len(),
            region == lines.deep_view().skip(start as int),
            culprits@ == culprits_of(region.take(at - start)),
            culprits.wf(),
        decreases lines.len() - at,
    {
        proof {
            let upto = region.take(at - start + 1);
            assert(upto.drop_last() =~= region.take(at - start));
            assert(upto.last() == lines@[at as int]@);
        }
        match culprit_candidate(lines[at].as_str()) {
            Some(name) => {
                culprits.consider(&system, name);
            },
            None => {},
        }
        at += 1;
    }
    assert(region.take(at - start) =~= region);
    culprits
}

} // verus!
