use vstd::prelude::*;
use crate::project::{has_key, keys_distinct, keys_of, Project};
use crate::seqs::lemma_filter_push;
use crate::text::{contains_text, lower_of, push_char, texts, to_lowercase};
use vstd::string::StrSliceExecFns;

verus! {

/// A character that normalization drops.
pub open spec fn is_separator(c: char) -> bool {
    c == '_' || c == '-'
}

/// The test that keeps the characters normalization does not drop.
pub open spec fn kept_char() -> spec_fn(char) -> bool {
    |c: char| !is_separator(c)
}

/// The normal form of a key: lower-cased, without underscores and hyphens.
pub open spec fn normal_form(key: Seq<char>) -> Seq<char> {
    lower_of(key).filter(kept_char())
}

/// The keys of all documents, document after document, each in its order.
pub open spec fn all_keys(docs: Seq<Project>) -> Seq<Seq<char>>
    decreases docs.len(),
{
    if docs.len() == 0 {
        Seq::empty()
    } else {
        all_keys(docs.drop_last()) + keys_of(docs.last()@)
    }
}

/// The number of documents that hold key `k`.
pub open spec fn doc_count(docs: Seq<Project>, k: Seq<char>) -> nat
    decreases docs.len(),
{
    if docs.len() == 0 {
        0
    } else {
        doc_count(docs.drop_last(), k) + if has_key(docs.last()@, k) {
            1nat
        } else {
            0nat
        }
    }
}

/// The test that a key has normal form `n`.
pub open spec fn normal_is(n: Seq<char>) -> spec_fn(Seq<char>) -> bool {
    |k: Seq<char>| normal_form(k) == n
}

/// The spellings in `s`, each once, in order of first appearance.
pub open spec fn distinct_spellings(s: Seq<Seq<char>>) -> Seq<Seq<char>>
    decreases s.len(),
{
    if s.len() == 0 {
        Seq::empty()
    } else {
        let init = distinct_spellings(s.drop_last());
        if init.contains(s.last()) {
            init
        } else {
            init.push(s.last())
        }
    }
}

/// The groups that hold two or more distinct spellings, each given as its
/// distinct spellings, in the order of the groups.
pub open spec fn duplicate_report(groups: Seq<(String, Vec<String>)>) -> Seq<Seq<Seq<char>>>
    decreases groups.len(),
{
    if groups.len() == 0 {
        Seq::empty()
    } else {
        let init = duplicate_report(groups.drop_last());
        let spellings = distinct_spellings(texts(groups.last().1@));
        if spellings.len() > 1 {
            init.push(spellings)
        } else {
            init
        }
    }
}

proof fn lemma_has_key_keys(f: crate::project::Fields, k: Seq<char>)
    ensures
        has_key(f, k) <==> keys_of(f).contains(k),
{
    if has_key(f, k) {
        let i = choose|i: int| 0 <= i < f.len() && f[i].0 == k;
        assert(keys_of(f)[i] == k);
    }
    if keys_of(f).contains(k) {
        let i = choose|i: int| 0 <= i < keys_of(f).len() && keys_of(f)[i] == k;
        assert(f[i].0 == k);
    }
}

proof fn lemma_doc_count_bounds(docs: Seq<Project>, k: Seq<char>)
    ensures
        doc_count(docs, k) <= docs.len(),
        doc_count(docs, k) > 0 ==> all_keys(docs).contains(k),
    decreases docs.len(),
{
    if docs.len() > 0 {
        let init = docs.drop_last();
        lemma_doc_count_bounds(init, k);
        lemma_has_key_keys(docs.last()@, k);
        if all_keys(init).contains(k) {
            let i = choose|i: int| 0 <= i < all_keys(init).len() && all_keys(init)[i] == k;
            assert(all_keys(docs)[i] == k);
        }
        if has_key(docs.last()@, k) {
            let i = choose|i: int| 0 <= i < keys_of(docs.last()@).len() && keys_of(docs.last()@)[i] == k;
            assert(all_keys(docs)[all_keys(init).len() + i] == k);
        }
    }
}

/// Normalizes a key for duplicate detection: lower-cases it and drops
/// underscores and hyphens.
pub fn normalize(key: &str) -> (r: String)
    ensures
        r@ == normal_form(key@),
{
    let lower = to_lowercase(key);
    let s = lower.as_str();
    let n = s.unicode_len();
    let mut out = String::new();
    let mut i: usize = 0;
    while i < n
        invariant
            i <= n,
            n == s@.len(),
            s@ == lower_of(key@),
            out@ == s@.subrange(0, i as int).filter(kept_char()),
        decreases n - i,
    {
        let c = s.get_char(i);
        proof {
            assert(s@.subrange(0, i + 1) =~= s@.subrange(0, i as int).push(c));
            lemma_filter_push(s@.subrange(0, i as int), c, kept_char());
        }
        if c != '_' && c != '-' {
            push_char(&mut out, c);
        }
        i += 1;
    }
    assert(s@.subrange(0, n as int) =~= s@);
    out
}

/// Counts, for each key that some document holds, the documents that hold it.
/// Each key appears once.
pub fn sweep_keys(projects: &Vec<Project>) -> (r: Vec<(String, usize)>)
    ensures
        forall|a: int, b: int|
            0 <= a < r@.len() && 0 <= b < r@.len() && a != b ==> r@[a].0@ != r@[b].0@,
        forall|a: int|
            0 <= a < r@.len() ==> all_keys(projects@).contains((#[trigger] r@[a]).0@) && r@[a].1
                == doc_count(projects@, r@[a].0@),
        forall|k: Seq<char>|
            all_keys(projects@).contains(k) ==> exists|a: int| 0 <= a < r@.len() && (#[trigger] r@[a]).0@ == k,
{
    let docs = projects;
    let ghost all = docs@;
    let n = docs.len();
    let mut counts: Vec<(String, usize)> = Vec::new();
    let mut d: usize = 0;
    while d < n
        invariant
            d <= n,
            n == all.len(),
            docs@ == all,
            forall|a: int, b: int|
                0 <= a < counts@.len() && 0 <= b < counts@.len() && a != b ==> counts@[a].0@
                    != counts@[b].0@,
            forall|a: int|
                0 <= a < counts@.len() ==> all_keys(all.subrange(0, d as int)).contains(
                    (#[trigger] counts@[a]).0@,
                ) && counts@[a].1 == doc_count(all.subrange(0, d as int), counts@[a].0@),
            forall|k: Seq<char>|
                all_keys(all.subrange(0, d as int)).contains(k) ==> exists|a: int|
                    0 <= a < counts@.len() && (#[trigger] counts@[a]).0@ == k,
        decreases n - d,
    {
        let doc = &docs[d];
        let m = doc.len();
        let ghost before = all.subrange(0, d as int);
        let ghost ks = keys_of(doc@);
        proof {
            assert(all.subrange(0, d + 1).drop_last() =~= before);
            assert(all.subrange(0, d + 1).last() == *doc);
        }
        let mut j: usize = 0;
        while j < m
            invariant
                j <= m,
                m == doc@.len(),
                d < n,
                n == all.len(),
                before == all.subrange(0, d as int),
                ks == keys_of(doc@),
                keys_distinct(doc@),
                forall|a: int, b: int|
                    0 <= a < counts@.len() && 0 <= b < counts@.len() && a != b ==> counts@[a].0@
                        != counts@[b].0@,
                forall|a: int|
                    0 <= a < counts@.len() ==> (all_keys(before) + ks.subrange(0, j as int)).contains(
                        (#[trigger] counts@[a]).0@,
                    ) && counts@[a].1 == doc_count(before, counts@[a].0@) + if ks.subrange(
                        0,
                        j as int,
                    ).contains(counts@[a].0@) {
                        1nat
                    } else {
                        0nat
                    },
                forall|k: Seq<char>|
                    (all_keys(before) + ks.subrange(0, j as int)).contains(k) ==> exists|a: int|
                        0 <= a < counts@.len() && (#[trigger] counts@[a]).0@ == k,
            decreases m - j,
        {
            let key = match doc.get_index(j) {
                Some((k, _)) => k,
                None => {
                    return counts;
                },
            };
            let ghost seen = all_keys(before) + ks.subrange(0, j as int);
            let ghost seen2 = all_keys(before) + ks.subrange(0, j + 1);
            let ghost pre = ks.subrange(0, j as int);
            let ghost pre1 = ks.subrange(0, j + 1);
            assert(seen2 =~= seen.push(key@));
            assert(ks.subrange(0, j + 1) =~= ks.subrange(0, j as int).push(key@));
            assert(!ks.subrange(0, j as int).contains(key@)) by {
                if ks.subrange(0, j as int).contains(key@) {
                    let t = choose|t: int| 0 <= t < j && ks.subrange(0, j as int)[t] == key@;
                    assert(doc@[t].0 == doc@[j as int].0);
                }
            }
            let mut a: usize = 0;
            let mut found = false;
            while a < counts.len()
                invariant_except_break
                    a <= counts@.len(),
                    forall|b: int| 0 <= b < a ==> counts@[b].0@ != key@,
                    !found,
                ensures
                    found ==> a < counts@.len() && counts@[a as int].0@ == key@,
                    !found ==> forall|b: int| 0 <= b < counts@.len() ==> counts@[b].0@ != key@,
                decreases counts@.len() - a,
            {
                if counts[a].0 == *key {
                    found = true;
                    break;
                }
                a += 1;
            }
            if found {
                proof {
                    lemma_doc_count_bounds(before, key@);
                    lemma_doc_count_bounds(all.subrange(0, d + 1), key@);
                }
                let name = counts[a].0.clone();
                let c = counts[a].1;
                let ghost old_counts = counts@;
                counts.set(a, (name, c + 1));
                assert forall|b: int| 0 <= b < counts@.len() implies seen2.contains(
                    (#[trigger] counts@[b]).0@,
                ) && counts@[b].1 == doc_count(before, counts@[b].0@) + if ks.subrange(
                    0,
                    j + 1,
                ).contains(counts@[b].0@) {
                    1nat
                } else {
                    0nat
                } by {
                    assert(seen.contains(old_counts[b].0@));
                    let t = choose|t: int| 0 <= t < seen.len() && seen[t] == old_counts[b].0@;
                    assert(seen2[t] == seen[t]);
                    if b != a {
                        assert(counts@[b] == old_counts[b]);
                        assert(ks.subrange(0, j + 1).contains(counts@[b].0@) == ks.subrange(
                            0,
                            j as int,
                        ).contains(counts@[b].0@)) by {
                            if ks.subrange(0, j + 1).contains(counts@[b].0@) {
                                let u = choose|u: int| 0 <= u < pre1.len() && pre1[u] == counts@[b].0@;
                                assert(pre[u] == counts@[b].0@);
                            }
                        }
                    } else {
                        assert(ks.subrange(0, j + 1)[j as int] == key@);
                    }
                }
                assert forall|k: Seq<char>| seen2.contains(k) implies exists|b: int|
                    0 <= b < counts@.len() && (#[trigger] counts@[b]).0@ == k by {
                    let t = choose|t: int| 0 <= t < seen2.len() && seen2[t] == k;
                    if t < seen.len() {
                        assert(seen[t] == k);
                        assert(seen.contains(k));
                        let b = choose|b: int| 0 <= b < old_counts.len() && old_counts[b].0@ == k;
                        assert(counts@[b].0@ == k);
                    } else {
                        assert(counts@[a as int].0@ == k);
                    }
                }
            } else {
                proof {
                    lemma_doc_count_bounds(before, key@);
                    if seen.contains(key@) {
                        let b = choose|b: int| 0 <= b < counts@.len() && counts@[b].0@ == key@;
                        assert(false);
                    }
                    assert(!all_keys(before).contains(key@)) by {
                        if all_keys(before).contains(key@) {
                            let t = choose|t: int|
                                0 <= t < all_keys(before).len() && all_keys(before)[t] == key@;
                            assert(seen[t] == key@);
                        }
                    }
                }
                let ghost old_counts = counts@;
                counts.push((key.clone(), 1));
                assert forall|b: int| 0 <= b < counts@.len() implies seen2.contains(
                    (#[trigger] counts@[b]).0@,
                ) && counts@[b].1 == doc_count(before, counts@[b].0@) + if ks.subrange(
                    0,
                    j + 1,
                ).contains(counts@[b].0@) {
                    1nat
                } else {
                    0nat
                } by {
                    if b < old_counts.len() {
                        assert(counts@[b] == old_counts[b]);
                        assert(seen.contains(old_counts[b].0@));
                        let t = choose|t: int| 0 <= t < seen.len() && seen[t] == old_counts[b].0@;
                        assert(seen2[t] == seen[t]);
                        assert(ks.subrange(0, j + 1).contains(counts@[b].0@) == ks.subrange(
                            0,
                            j as int,
                        ).contains(counts@[b].0@)) by {
                            if ks.subrange(0, j + 1).contains(counts@[b].0@) {
                                let u = choose|u: int| 0 <= u < pre1.len() && pre1[u] == counts@[b].0@;
                                assert(pre[u] == counts@[b].0@);
                            }
                        }
                    } else {
                        assert(seen2[seen.len() as int] == key@);
                        assert(ks.subrange(0, j + 1)[j as int] == key@);
                    }
                }
                assert forall|k: Seq<char>| seen2.contains(k) implies exists|b: int|
                    0 <= b < counts@.len() && (#[trigger] counts@[b]).0@ == k by {
                    let t = choose|t: int| 0 <= t < seen2.len() && seen2[t] == k;
                    if t < seen.len() {
                        assert(seen[t] == k);
                        assert(seen.contains(k));
                        let b = choose|b: int| 0 <= b < old_counts.len() && old_counts[b].0@ == k;
                        assert(counts@[b].0@ == k);
                    } else {
                        assert(counts@[old_counts.len() as int].0@ == k);
                    }
                }
            }
            j += 1;
        }
        proof {
            assert(ks.subrange(0, m as int) =~= ks);
            assert(all_keys(all.subrange(0, d + 1)) == all_keys(before) + ks);
            assert forall|k: Seq<char>| #![auto] ks.contains(k) == has_key(doc@, k) by {
                lemma_has_key_keys(doc@, k);
            }
        }
        d += 1;
    }
    assert(all.subrange(0, n as int) =~= all);
    counts
}

/// The keys of all documents, document after document.
pub fn flat_keys(projects: &Vec<Project>) -> (r: Vec<String>)
    ensures
        texts(r@) == all_keys(projects@),
{
    let ghost all = projects@;
    let n = projects.len();
    let mut out: Vec<String> = Vec::new();
    let mut d: usize = 0;
    while d < n
        invariant
            d <= n,
            n == all.len(),
            projects@ == all,
            texts(out@) == all_keys(all.subrange(0, d as int)),
        decreases n - d,
    {
        let doc = &projects[d];
        let m = doc.len();
        let ghost base = all_keys(all.subrange(0, d as int));
        let mut j: usize = 0;
        while j < m
            invariant
                j <= m,
                m == doc@.len(),
                texts(out@) == base + keys_of(doc@).subrange(0, j as int),
            decreases m - j,
        {
            match doc.get_index(j) {
                Some((k, _)) => {
                    let ghost prev = out@;
                    out.push(k.clone());
                    assert(texts(out@) =~= texts(prev).push(k@));
                },
                None => {},
            }
            assert(base + keys_of(doc@).subrange(0, j + 1) =~= (base + keys_of(doc@).subrange(
                0,
                j as int,
            )).push(keys_of(doc@)[j as int]));
            j += 1;
        }
        proof {
            assert(keys_of(doc@).subrange(0, m as int) =~= keys_of(doc@));
            assert(all.subrange(0, d + 1).drop_last() =~= all.subrange(0, d as int));
        }
        d += 1;
    }
    assert(all.subrange(0, n as int) =~= all);
    out
}

/// Groups the keys of all documents by normal form. Each group lists, in scan
/// order and with repetitions, the raw keys that share its normal form.
pub fn sweep_similar_keys(projects: &Vec<Project>) -> (r: Vec<(String, Vec<String>)>)
    ensures
        forall|a: int, b: int|
            0 <= a < r@.len() && 0 <= b < r@.len() && a != b ==> r@[a].0@ != r@[b].0@,
        forall|a: int|
            0 <= a < r@.len() ==> texts((#[trigger] r@[a]).1@) == all_keys(projects@).filter(
                normal_is(r@[a].0@),
            ) && r@[a].1@.len() > 0,
        forall|k: Seq<char>|
            all_keys(projects@).contains(k) ==> exists|a: int|
                0 <= a < r@.len() && (#[trigger] r@[a]).0@ == normal_form(k),
{
    let flat = flat_keys(projects);
    let ghost all = texts(flat@);
    let n = flat.len();
    let mut groups: Vec<(String, Vec<String>)> = Vec::new();
    let mut i: usize = 0;
    while i < n
        invariant
            i <= n,
            n == flat@.len(),
            all == texts(flat@),
            forall|a: int, b: int|
                0 <= a < groups@.len() && 0 <= b < groups@.len() && a != b ==> groups@[a].0@
                    != groups@[b].0@,
            forall|a: int|
                0 <= a < groups@.len() ==> texts((#[trigger] groups@[a]).1@) == all.subrange(
                    0,
                    i as int,
                ).filter(normal_is(groups@[a].0@)) && groups@[a].1@.len() > 0,
            forall|k: Seq<char>|
                all.subrange(0, i as int).contains(k) ==> exists|a: int|
                    0 <= a < groups@.len() && (#[trigger] groups@[a]).0@ == normal_form(k),
        decreases n - i,
    {
        let key = &flat[i];
        let norm = normalize(key.as_str());
        let ghost seen = all.subrange(0, i as int);
        let ghost seen1 = all.subrange(0, i + 1);
        assert(seen1 =~= seen.push(key@));
        let mut g: usize = 0;
        let mut found = false;
        while g < groups.len()
            invariant_except_break
                g <= groups@.len(),
                forall|b: int| 0 <= b < g ==> groups@[b].0@ != norm@,
                !found,
            ensures
                found ==> g < groups@.len() && groups@[g as int].0@ == norm@,
                !found ==> forall|b: int| 0 <= b < groups@.len() ==> groups@[b].0@ != norm@,
            decreases groups@.len() - g,
        {
            if groups[g].0 == norm {
                found = true;
                break;
            }
            g += 1;
        }
        let ghost old_groups = groups@;
        if found {
            let (name, mut members) = groups.remove(g);
            let ghost prev = members@;
            members.push(key.clone());
            assert(texts(members@) =~= texts(prev).push(key@));
            groups.insert(g, (name, members));
            assert forall|a: int| 0 <= a < groups@.len() implies texts(
                (#[trigger] groups@[a]).1@,
            ) == seen1.filter(normal_is(groups@[a].0@)) && groups@[a].1@.len() > 0 by {
                lemma_filter_push(seen, key@, normal_is(groups@[a].0@));
                if a != g {
                    assert(groups@[a] == old_groups[a]);
                } else {
                    assert(groups@[a].0 == old_groups[a].0);
                }
            }
            assert forall|a: int, b: int|
                0 <= a < groups@.len() && 0 <= b < groups@.len() && a != b implies groups@[a].0@
                != groups@[b].0@ by {
                assert(groups@[a].0 == old_groups[a].0);
                assert(groups@[b].0 == old_groups[b].0);
            }
            assert forall|k: Seq<char>| seen1.contains(k) implies exists|a: int|
                0 <= a < groups@.len() && (#[trigger] groups@[a]).0@ == normal_form(k) by {
                let t = choose|t: int| 0 <= t < seen1.len() && seen1[t] == k;
                if t < seen.len() {
                    assert(seen[t] == k);
                    assert(seen.contains(k));
                    let a = choose|a: int|
                        0 <= a < old_groups.len() && old_groups[a].0@ == normal_form(k);
                    assert(groups@[a].0 == old_groups[a].0);
                } else {
                    assert(groups@[g as int].0@ == normal_form(k));
                }
            }
        } else {
            proof {
                let fil = seen.filter(normal_is(norm@));
                if fil.len() > 0 {
                    seen.lemma_filter_pred(normal_is(norm@), 0);
                    seen.lemma_filter_contains_rev(normal_is(norm@), fil[0]);
                    let a = choose|a: int|
                        0 <= a < groups@.len() && groups@[a].0@ == normal_form(fil[0]);
                    assert(false);
                }
                assert(fil =~= Seq::<Seq<char>>::empty());
            }
            let mut members: Vec<String> = Vec::new();
            members.push(key.clone());
            let ghost new_group = (norm, members);
            assert(texts(members@) =~= seq![key@]);
            groups.push((norm, members));
            assert forall|a: int| 0 <= a < groups@.len() implies texts(
                (#[trigger] groups@[a]).1@,
            ) == seen1.filter(normal_is(groups@[a].0@)) && groups@[a].1@.len() > 0 by {
                lemma_filter_push(seen, key@, normal_is(groups@[a].0@));
                if a < old_groups.len() {
                    assert(groups@[a] == old_groups[a]);
                } else {
                    assert(seen.filter(normal_is(norm@)).push(key@) =~= seq![key@]);
                }
            }
            assert forall|k: Seq<char>| seen1.contains(k) implies exists|a: int|
                0 <= a < groups@.len() && (#[trigger] groups@[a]).0@ == normal_form(k) by {
                let t = choose|t: int| 0 <= t < seen1.len() && seen1[t] == k;
                if t < seen.len() {
                    assert(seen[t] == k);
                    assert(seen.contains(k));
                    let a = choose|a: int|
                        0 <= a < old_groups.len() && old_groups[a].0@ == normal_form(k);
                    assert(groups@[a] == old_groups[a]);
                } else {
                    assert(groups@[old_groups.len() as int].0@ == normal_form(k));
                }
            }
        }
        i += 1;
    }
    assert(all.subrange(0, n as int) =~= all);
    groups
}

/// The distinct strings of `words`, in order of first appearance.
fn distinct_of(words: &Vec<String>) -> (r: Vec<String>)
    ensures
        texts(r@) == distinct_spellings(texts(words@)),
{
    let ghost all = texts(words@);
    let mut out: Vec<String> = Vec::new();
    let mut j: usize = 0;
    while j < words.len()
        invariant
            j <= words@.len(),
            all == texts(words@),
            texts(out@) == distinct_spellings(all.subrange(0, j as int)),
        decreases words@.len() - j,
    {
        let w = &words[j];
        assert(all.subrange(0, j + 1).drop_last() =~= all.subrange(0, j as int));
        assert(all.subrange(0, j + 1).last() == w@);
        if !contains_text(&out, w) {
            let ghost prev = out@;
            out.push(w.clone());
            assert(texts(out@) =~= texts(prev).push(w@));
        }
        j += 1;
    }
    assert(all.subrange(0, words@.len() as int) =~= all);
    out
}

/// The groups that are possible duplicates: those with two or more distinct
/// raw spellings, each given as its distinct spellings. A group whose one
/// spelling repeats is not reported.
pub fn duplicate_groups(groups: &Vec<(String, Vec<String>)>) -> (r: Vec<Vec<String>>)
    ensures
        r@.map_values(|v: Vec<String>| texts(v@)) == duplicate_report(groups@),
{
    let ghost all = groups@;
    let mut out: Vec<Vec<String>> = Vec::new();
    let mut i: usize = 0;
    while i < groups.len()
        invariant
            i <= groups@.len(),
            all == groups@,
            out@.map_values(|v: Vec<String>| texts(v@)) == duplicate_report(all.subrange(0, i as int)),
        decreases groups@.len() - i,
    {
        let spellings = distinct_of(&groups[i].1);
        assert(all.subrange(0, i + 1).drop_last() =~= all.subrange(0, i as int));
        assert(all.subrange(0, i + 1).last() == groups@[i as int]);
        if spellings.len() > 1 {
            let ghost prev = out@;
            out.push(spellings);
            assert(out@.map_values(|v: Vec<String>| texts(v@)) =~= prev.map_values(
                |v: Vec<String>| texts(v@),
            ).push(texts(spellings@)));
        }
        i += 1;
    }
    assert(all.subrange(0, groups@.len() as int) =~= all);
    out
}

} // verus!
