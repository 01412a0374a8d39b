//! Saved request templates: a named list of file names, kept per owner.

use crate::item::{clone_string, strings_view};
use crate::principal::PrincipalId;
use crate::store::{lemma_pair_idx, lemma_pair_push, lemma_pair_remove, lemma_pair_update,
    pair_contains, pair_map, pair_unique};
use vstd::prelude::*;

verus! {

/// The ghost model of a template.
#[verifier::ext_equal]
pub ghost struct TemplateModel {
    pub name: Seq<char>,
    pub file_names: Seq<Seq<char>>,
}

/// A saved template: a group name and the file names to request.
#[derive(Debug)]
pub struct TemplateLegacy {
    pub name: String,
    pub file_names: Vec<String>,
}

impl View for TemplateLegacy {
    type V = TemplateModel;

    open spec fn view(&self) -> TemplateModel {
        TemplateModel {
            name: self.name@,
            file_names: strings_view(self.file_names@),
        }
    }
}

/// Copies a vector of strings.
pub fn clone_strings(v: &Vec<String>) -> (r: Vec<String>)
    ensures
        strings_view(r@) == strings_view(v@),
{
    let mut r: Vec<String> = Vec::new();
    let n = v.len();
    let mut i: usize = 0;
    while i < n
        invariant
            n == v@.len(),
            i <= n,
            r@.len() == i,
            forall|j: int| 0 <= j < i ==> #[trigger] r@[j]@ == v@[j]@,
        decreases n - i,
    {
        r.push(clone_string(&v[i]));
        i = i + 1;
    }
    proof {
        assert(strings_view(r@) =~= strings_view(v@));
    }
    r
}

impl Clone for TemplateLegacy {
    fn clone(&self) -> (r: TemplateLegacy)
        ensures
            r@ == self@,
    {
        let r = TemplateLegacy {
            name: clone_string(&self.name),
            file_names: clone_strings(&self.file_names),
        };
        proof {
            assert(r@ =~= self@);
        }
        r
    }
}

/// The templates of one owner, drawn from a flat key sequence.
pub open spec fn templates_of(
    s: Seq<((Seq<u8>, Seq<char>), TemplateModel)>,
    p: Seq<u8>,
) -> Seq<TemplateModel> {
    s.filter(|e: ((Seq<u8>, Seq<char>), TemplateModel)| e.0.0 == p).map_values(
        |e: ((Seq<u8>, Seq<char>), TemplateModel)| e.1,
    )
}

/// The store of templates, keyed by owner and template name.
pub struct TemplateStore {
    vec: Vec<(PrincipalId, TemplateLegacy)>,
}

impl View for TemplateStore {
    type V = Map<(Seq<u8>, Seq<char>), TemplateModel>;

    closed spec fn view(&self) -> Map<(Seq<u8>, Seq<char>), TemplateModel> {
        pair_map(self.entries())
    }
}

impl TemplateStore {
    /// The key-template pairs of the store.
    pub closed spec fn entries(&self) -> Seq<((Seq<u8>, Seq<char>), TemplateModel)> {
        self.vec@.map_values(|e: (PrincipalId, TemplateLegacy)| ((e.0@, e.1.name@), e.1@))
    }

    /// Well-formedness: no owner saves two templates under one name.
    pub closed spec fn inv(&self) -> bool {
        pair_unique(self.entries())
    }

    /// An empty store.
    pub fn new() -> (r: TemplateStore)
        ensures
            r.inv(),
            r@ =~= Map::<(Seq<u8>, Seq<char>), TemplateModel>::empty(),
    {
        let r = TemplateStore { vec: Vec::new() };
        proof {
            assert(r.entries() =~= Seq::<((Seq<u8>, Seq<char>), TemplateModel)>::empty());
            assert forall|k: (Seq<u8>, Seq<char>)| !(#[trigger] r@.contains_key(k)) by {
                assert(!pair_contains(r.entries(), k));
            }
        }
        r
    }

    /// Looks up the template an owner saved under a name.
    pub fn get(&self, p: &PrincipalId, name: &String) -> (r: Option<&TemplateLegacy>)
        requires
            self.inv(),
        ensures
            match r {
                Some(t) => self@.contains_key((p@, name@)) && self@[(p@, name@)] == t@
                    && t@.name == name@,
                None => !self@.contains_key((p@, name@)),
            },
    {
        let ghost s = self.entries();
        let n = self.vec.len();
        let mut i: usize = 0;
        while i < n
            invariant
                n == s.len(),
                s == self.entries(),
                i <= n,
                forall|j: int| 0 <= j < i ==> s[j].0 != (p@, name@),
            decreases n - i,
        {
            if self.vec[i].0 == *p && self.vec[i].1.name == *name {
                proof {
                    assert(s[i as int].0 == (p@, name@));
                    lemma_pair_idx(s, i as int);
                }
                return Some(&self.vec[i].1);
            }
            proof {
                assert(s[i as int].0 != (p@, name@));
            }
            i = i + 1;
        }
        proof {
            assert(!pair_contains(s, (p@, name@)));
        }
        None
    }

    /// Saves a template for an owner, replacing one saved under the same name.
    pub fn save(&mut self, p: &PrincipalId, t: TemplateLegacy)
        requires
            old(self).inv(),
        ensures
            final(self).inv(),
            final(self)@ == old(self)@.insert((p@, t.name@), t@),
    {
        let ghost s = self.entries();
        let ghost key = (p@, t.name@);
        let ghost tv = t@;
        let n = self.vec.len();
        let mut i: usize = 0;
        while i < n
            invariant
                n == s.len(),
                s == self.entries(),
                pair_unique(s),
                i <= n,
                forall|j: int| 0 <= j < i ==> s[j].0 != key,
            decreases n - i,
        {
            if self.vec[i].0 == *p && self.vec[i].1.name == t.name {
                proof {
                    assert(s[i as int].0 == key);
                    lemma_pair_update(s, i as int, tv);
                }
                let owner = self.vec[i].0.clone();
                self.vec.set(i, (owner, t));
                proof {
                    assert(self.entries() =~= s.update(i as int, (key, tv)));
                }
                return ;
            }
            proof {
                assert(s[i as int].0 != key);
            }
            i = i + 1;
        }
        proof {
            assert(!pair_contains(s, key));
            lemma_pair_push(s, (key, tv));
        }
        let owner = p.clone();
        self.vec.push((owner, t));
        proof {
            assert(self.entries() =~= s.push((key, tv)));
        }
    }

    /// Deletes the template an owner saved under a name.
    ///
    /// Returns whether one was saved.
    pub fn delete(&mut self, p: &PrincipalId, name: &String) -> (removed: bool)
        requires
            old(self).inv(),
        ensures
            final(self).inv(),
            removed == old(self)@.contains_key((p@, name@)),
            final(self)@ == old(self)@.remove((p@, name@)),
    {
        let ghost s = self.entries();
        let ghost key = (p@, name@);
        let n = self.vec.len();
        let mut i: usize = 0;
        while i < n
            invariant
                n == s.len(),
                s == self.entries(),
                pair_unique(s),
                i <= n,
                forall|j: int| 0 <= j < i ==> s[j].0 != key,
            decreases n - i,
        {
            if self.vec[i].0 == *p && self.vec[i].1.name == *name {
                proof {
                    assert(s[i as int].0 == key);
                    lemma_pair_idx(s, i as int);
                    lemma_pair_remove(s, i as int);
                }
                self.vec.remove(i);
                proof {
                    assert(self.entries() =~= s.remove(i as int));
                }
                return true;
            }
            proof {
                assert(s[i as int].0 != key);
            }
            i = i + 1;
        }
        proof {
            assert(!pair_contains(s, key));
            assert(self@ =~= old(self)@.remove(key));
        }
        false
    }

    /// The number of saved templates, over all owners.
    pub fn len(&self) -> (n: usize)
        ensures
            n == self.entries().len(),
    {
        self.vec.len()
    }

    /// The entry at a position.
    pub fn entry_at(&self, i: usize) -> (r: (&PrincipalId, &TemplateLegacy))
        requires
            self.inv(),
            i < self.entries().len(),
        ensures
            ((r.0@, r.1.name@), r.1@) == self.entries()[i as int],
    {
        proof {
            lemma_pair_idx(self.entries(), i as int);
        }
        (&self.vec[i].0, &self.vec[i].1)
    }

    /// The templates an owner has saved, in the order they were first saved.
    pub fn list_for(&self, p: &PrincipalId) -> (r: Vec<TemplateLegacy>)
        requires
            self.inv(),
        ensures
            r@.map_values(|t: TemplateLegacy| t@) == templates_of(self.entries(), p@),
    {
        let ghost s = self.entries();
        let ghost gpred = |e: ((Seq<u8>, Seq<char>), TemplateModel)| e.0.0 == p@;
        let ghost gval = |e: ((Seq<u8>, Seq<char>), TemplateModel)| e.1;
        let mut r: Vec<TemplateLegacy> = Vec::new();
        let n = self.vec.len();
        let mut i: usize = 0;
        proof {
            reveal(Seq::filter);
            assert(s.take(0) =~= Seq::<((Seq<u8>, Seq<char>), TemplateModel)>::empty());
            assert(r@.map_values(|t: TemplateLegacy| t@) =~= s.take(0).filter(gpred).map_values(
                gval,
            ));
        }
        while i < n
            invariant
                n == s.len(),
                s == self.entries(),
                i <= n,
                r@.map_values(|t: TemplateLegacy| t@) == s.take(i as int).filter(gpred).map_values(
                    gval,
                ),
            decreases n - i,
        {
            proof {
                reveal(Seq::filter);
                assert(s.take(i as int + 1).drop_last() =~= s.take(i as int));
                assert(s.take(i as int + 1).last() == s[i as int]);
            }
            if self.vec[i].0 == *p {
                r.push(self.vec[i].1.clone());
                proof {
                    assert(gpred(s[i as int]));
                    assert(r@.map_values(|t: TemplateLegacy| t@) =~= s.take(i as int).filter(
                        gpred,
                    ).map_values(gval).push(s[i as int].1));
                    assert(s.take(i as int + 1).filter(gpred).map_values(gval) =~= s.take(
                        i as int,
                    ).filter(gpred).map_values(gval).push(s[i as int].1));
                }
            } else {
                proof {
                    assert(!gpred(s[i as int]));
                }
            }
            i = i + 1;
        }
        proof {
            assert(s.take(n as int) =~= s);
            assert(templates_of(s, p@) == s.filter(gpred).map_values(gval));
        }
        r
    }
}

} // verus!
