//! Selecting members through a rules file: each rule is a regular
//! expression matched against the file names of the catalog, and the
//! containers that hold a matching file are the ones to decrypt.
use vstd::prelude::*;

verus! {

/// Whether `regex::Regex::new` accepts `pattern`.
pub uninterp spec fn rule_compiles(pattern: Seq<char>) -> bool;

/// Whether the regular expression `pattern` matches somewhere in `text`.
pub uninterp spec fn rule_matches(pattern: Seq<char>, text: Seq<char>) -> bool;

/// Relies on `regex::Regex::new`, which fails on an invalid or oversized
/// pattern, and on `Regex::is_match`, true when the compiled pattern matches
/// anywhere in a text. Compiles `pattern` once and matches it against each
/// text.
#[verifier::external_body]
fn match_texts(pattern: &str, texts: &Vec<String>) -> (r: Option<Vec<bool>>)
    ensures
        r is Some <==> rule_compiles(pattern@),
        r matches Some(v) ==> v@.len() == texts@.len() && forall|i: int|
            0 <= i < v@.len() ==> v@[i] == rule_matches(pattern@, #[trigger] texts@[i]@),
{
    let re = regex::Regex::new(pattern).ok()?;
    Some(texts.iter().map(|t| re.is_match(t)).collect())
}

/// A row of the catalog as selection reads it: the row's name, and its file
/// name and container name where those cells hold strings.
#[derive(Debug, Clone)]
pub struct CatalogEntry {
    pub row_name: Vec<u8>,
    pub file_name: Option<String>,
    pub cpk_name: Option<String>,
}

/// Whether a row name contains `BEG` or `END`: such rows only mark where a
/// list starts or ends.
pub open spec fn is_marker(name: Seq<u8>) -> bool {
    exists|i: int|
        0 <= i && i + 3 <= name.len() && (#[trigger] name.subrange(i, i + 3) == seq![0x42u8, 0x45u8, 0x47u8]
            || name.subrange(i, i + 3) == seq![0x45u8, 0x4Eu8, 0x44u8])
}

/// Whether row `e` is selected by the rule `pattern`.
pub open spec fn entry_hit(e: CatalogEntry, pattern: Seq<char>) -> bool {
    &&& !is_marker(e.row_name@)
    &&& e.file_name is Some
    &&& e.cpk_name is Some
    &&& rule_matches(pattern, e.file_name.unwrap()@)
}

/// The rows among the first `n` that `pattern` selects, in order.
pub open spec fn rule_hits(rows: Seq<CatalogEntry>, pattern: Seq<char>, n: nat) -> Seq<CatalogEntry>
    decreases n,
{
    if n == 0 {
        Seq::empty()
    } else {
        let prev = rule_hits(rows, pattern, (n - 1) as nat);
        if entry_hit(rows[n - 1], pattern) {
            prev.push(rows[n - 1])
        } else {
            prev
        }
    }
}

/// The rows selected by the first `n` rules, rule by rule; a rule that does
/// not compile selects nothing.
pub open spec fn selection(rows: Seq<CatalogEntry>, rules: Seq<String>, n: nat) -> Seq<CatalogEntry>
    decreases n,
{
    if n == 0 {
        Seq::empty()
    } else {
        let prev = selection(rows, rules, (n - 1) as nat);
        if rule_compiles(rules[n - 1]@) {
            prev + rule_hits(rows, rules[n - 1]@, rows.len())
        } else {
            prev
        }
    }
}

/// `files` and `cpks` are the file and container names of `sel`, in order.
pub open spec fn names_match(files: Seq<String>, cpks: Seq<String>, sel: Seq<CatalogEntry>) -> bool {
    &&& files.len() == sel.len()
    &&& cpks.len() == sel.len()
    &&& forall|m: int|
        0 <= m < sel.len() ==> files[m] == (#[trigger] sel[m]).file_name.unwrap() && cpks[m]
            == sel[m].cpk_name.unwrap()
}

/// Whether `name` is one of `names`.
pub open spec fn named_in(names: Seq<String>, name: Seq<char>) -> bool {
    exists|i: int| 0 <= i < names.len() && (#[trigger] names[i])@ == name
}

/// Whether `name` holds `BEG` or `END`.
pub fn has_marker(name: &Vec<u8>) -> (r: bool)
    ensures
        r == is_marker(name@),
{
    let n = name.len();
    let mut i: usize = 0;
    while n >= 3 && i <= n - 3
        invariant
            n == name@.len(),
            forall|j: int|
                0 <= j < i && j + 3 <= n ==> !(#[trigger] name@.subrange(j, j + 3) == seq![
                    0x42u8,
                    0x45u8,
                    0x47u8,
                ] || name@.subrange(j, j + 3) == seq![0x45u8, 0x4Eu8, 0x44u8]),
        decreases n - i,
    {
        let a = name[i];
        let b = name[i + 1];
        let c = name[i + 2];
        proof {
            assert(name@.subrange(i as int, i + 3) =~= seq![a, b, c]);
        }
        if (a == 0x42 && b == 0x45 && c == 0x47) || (a == 0x45 && b == 0x4E && c == 0x44) {
            return true;
        }
        i = i + 1;
    }
    false
}

fn clone_text(o: &Option<String>) -> (r: String)
    requires
        o is Some,
    ensures
        r == o.unwrap(),
{
    match o {
        Some(s) => s.clone(),
        None => String::new(),
    }
}

/// Applies the rules to the catalog: the file names and container names of
/// the selected rows, rule by rule and row by row.
pub fn select_requested(rows: &Vec<CatalogEntry>, rules: &Vec<String>) -> (r: (Vec<String>, Vec<String>))
    ensures
        names_match(r.0@, r.1@, selection(rows@, rules@, rules@.len() as nat)),
{
    let mut texts: Vec<String> = Vec::new();
    let mut i: usize = 0;
    while i < rows.len()
        invariant
            i <= rows@.len(),
            texts@.len() == i,
            forall|j: int|
                0 <= j < i ==> (rows@[j].file_name matches Some(s) ==> (#[trigger] texts@[j]) == s),
        decreases rows@.len() - i,
    {
        let t = match &rows[i].file_name {
            Some(s) => s.clone(),
            None => String::new(),
        };
        texts.push(t);
        i = i + 1;
    }
    let mut files: Vec<String> = Vec::new();
    let mut cpks: Vec<String> = Vec::new();
    let mut k: usize = 0;
    while k < rules.len()
        invariant
            k <= rules@.len(),
            texts@.len() == rows@.len(),
            forall|j: int|
                0 <= j < rows@.len() ==> (rows@[j].file_name matches Some(s) ==> (#[trigger] texts@[j])
                    == s),
            names_match(files@, cpks@, selection(rows@, rules@, k as nat)),
        decreases rules@.len() - k,
    {
        let ghost before = selection(rows@, rules@, k as nat);
        match match_texts(rules[k].as_str(), &texts) {
            None => {},
            Some(hits) => {
                let ghost pattern = rules@[k as int]@;
                let mut i: usize = 0;
                while i < rows.len()
                    invariant
                        i <= rows@.len(),
                        texts@.len() == rows@.len(),
                        hits@.len() == rows@.len(),
                        forall|j: int|
                            0 <= j < rows@.len() ==> hits@[j] == rule_matches(pattern, #[trigger] texts@[j]@),
                        forall|j: int|
                            0 <= j < rows@.len() ==> (rows@[j].file_name matches Some(s) ==> (
                            #[trigger] texts@[j]) == s),
                        names_match(files@, cpks@, before + rule_hits(rows@, pattern, i as nat)),
                    decreases rows@.len() - i,
                {
                    let e = &rows[i];
                    let ghost sel = before + rule_hits(rows@, pattern, i as nat);
                    proof {
                        assert(*e == rows@[i as int]);
                        if e.file_name is Some {
                            assert(texts@[i as int] == e.file_name.unwrap());
                        }
                    }
                    if !has_marker(&e.row_name) && e.file_name.is_some() && e.cpk_name.is_some() && hits[i] {
                        files.push(clone_text(&e.file_name));
                        cpks.push(clone_text(&e.cpk_name));
                        proof {
                            assert(entry_hit(*e, pattern));
                            assert(before + rule_hits(rows@, pattern, (i + 1) as nat) =~= sel.push(*e));
                        }
                    } else {
                        proof {
                            assert(!entry_hit(*e, pattern));
                            assert(rule_hits(rows@, pattern, (i + 1) as nat) == rule_hits(rows@, pattern, i as nat));
                        }
                    }
                    i = i + 1;
                }
            },
        }
        k = k + 1;
    }
    (files, cpks)
}

/// Whether `name` is one of `names`.
pub fn contains_name(names: &Vec<String>, name: &String) -> (r: bool)
    ensures
        r == named_in(names@, name@),
{
    let mut i: usize = 0;
    while i < names.len()
        invariant
            i <= names@.len(),
            forall|j: int| 0 <= j < i ==> (#[trigger] names@[j])@ != name@,
        decreases names@.len() - i,
    {
        if names[i].eq(name) {
            return true;
        }
        i = i + 1;
    }
    false
}

/// Which containers to decrypt: those named among `selected_cpks`.
pub fn containers_to_keep(cpk_files: &Vec<String>, selected_cpks: &Vec<String>) -> (keep: Vec<bool>)
    ensures
        keep@.len() == cpk_files@.len(),
        forall|i: int| 0 <= i < keep@.len() ==> keep@[i] == named_in(selected_cpks@, (#[trigger] cpk_files@[i])@),
{
    let mut keep: Vec<bool> = Vec::new();
    let mut i: usize = 0;
    while i < cpk_files.len()
        invariant
            i <= cpk_files@.len(),
            keep@.len() == i,
            forall|m: int| 0 <= m < i ==> keep@[m] == named_in(selected_cpks@, (#[trigger] cpk_files@[m])@),
        decreases cpk_files@.len() - i,
    {
        keep.push(contains_name(selected_cpks, &cpk_files[i]));
        i = i + 1;
    }
    keep
}

} // verus!
