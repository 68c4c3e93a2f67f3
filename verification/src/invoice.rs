//! Invoices: the documents that describe a bindle and list its parcels.
//!
//! The fields named here are the ones that the store reads. What else a document holds travels
//! along, written out, in the fields named `rest`.

use vstd::prelude::*;

verus! {

/// The identifier of a bindle.
#[derive(Debug)]
pub struct Id {
    /// The identifier in full, which tells bindles apart.
    pub name: String,
    /// The digest of the identifier, under which the bindle's invoice is stored.
    pub sha: String,
}

impl Clone for Id {
    fn clone(&self) -> (res: Self)
        ensures
            res == *self,
    {
        Id { name: self.name.clone(), sha: self.sha.clone() }
    }
}

/// What is known of a parcel without its data.
#[derive(Debug)]
pub struct Label {
    /// The digest of the parcel's data, under which the data is stored.
    pub sha256: String,
    pub rest: String,
}

impl Clone for Label {
    fn clone(&self) -> (res: Self)
        ensures
            res == *self,
    {
        Label { sha256: self.sha256.clone(), rest: self.rest.clone() }
    }
}

/// A parcel as an invoice lists it.
#[derive(Debug)]
pub struct Parcel {
    pub label: Label,
    pub rest: String,
}

impl Clone for Parcel {
    fn clone(&self) -> (res: Self)
        ensures
            res == *self,
    {
        Parcel { label: self.label.clone(), rest: self.rest.clone() }
    }
}

/// The part of an invoice that says which bindle it is for.
#[derive(Debug)]
pub struct BindleSpec {
    pub id: Id,
    pub rest: String,
}

impl Clone for BindleSpec {
    fn clone(&self) -> (res: Self)
        ensures
            res == *self,
    {
        BindleSpec { id: self.id.clone(), rest: self.rest.clone() }
    }
}

/// The invoice of a bindle.
#[derive(Debug)]
pub struct Invoice {
    pub bindle: BindleSpec,
    pub yanked: Option<bool>,
    pub parcel: Option<Vec<Parcel>>,
    pub rest: String,
}

/// The mathematical content of an [`Invoice`].
pub struct InvoiceView {
    pub bindle: BindleSpec,
    pub yanked: Option<bool>,
    pub parcel: Option<Seq<Parcel>>,
    pub rest: String,
}

impl InvoiceView {
    /// The name under which the invoice is stored.
    pub open spec fn canonical_name(self) -> Seq<char> {
        self.bindle.id.sha@
    }

    /// Whether the invoice says that it is yanked. Silence means that it is not.
    pub open spec fn is_yanked(self) -> bool {
        self.yanked == Some(true)
    }

    /// The same invoice, marked as yanked.
    pub open spec fn yank(self) -> InvoiceView {
        InvoiceView { yanked: Some(true), ..self }
    }

    /// The parcels that the invoice lists.
    pub open spec fn parcels(self) -> Seq<Parcel> {
        match self.parcel {
            Some(parcels) => parcels,
            None => Seq::empty(),
        }
    }

    /// Whether one of the invoice's parcels has the digest `sha`.
    pub open spec fn lists_parcel(self, sha: Seq<char>) -> bool {
        exists|i: int|
            0 <= i < self.parcels().len() && (#[trigger] self.parcels()[i]).label.sha256@ == sha
    }
}

impl View for Invoice {
    type V = InvoiceView;

    open spec fn view(&self) -> InvoiceView {
        InvoiceView {
            bindle: self.bindle,
            yanked: self.yanked,
            parcel: match self.parcel {
                Some(parcels) => Some(parcels@),
                None => None,
            },
            rest: self.rest,
        }
    }
}

fn clone_parcels(parcels: &Vec<Parcel>) -> (res: Vec<Parcel>)
    ensures
        res@ == parcels@,
{
    let mut res: Vec<Parcel> = Vec::new();
    let mut i: usize = 0;
    while i < parcels.len()
        invariant
            i <= parcels@.len(),
            res@ == parcels@.take(i as int),
        decreases parcels@.len() - i,
    {
        res.push(parcels[i].clone());
        assert(res@ =~= parcels@.take(i + 1));
        i = i + 1;
    }
    assert(res@ =~= parcels@);
    res
}

impl Clone for Invoice {
    fn clone(&self) -> (res: Self)
        ensures
            res@ == self@,
    {
        Invoice {
            bindle: self.bindle.clone(),
            yanked: self.yanked,
            parcel: match &self.parcel {
                Some(parcels) => Some(clone_parcels(parcels)),
                None => None,
            },
            rest: self.rest.clone(),
        }
    }
}

impl Invoice {
    /// The name under which the invoice is stored.
    pub fn canonical_name(&self) -> (res: String)
        ensures
            res@ == self@.canonical_name(),
    {
        self.bindle.id.sha.clone()
    }

    /// Whether the invoice says that it is yanked.
    pub fn is_yanked(&self) -> (res: bool)
        ensures
            res == self@.is_yanked(),
    {
        match self.yanked {
            Some(yanked) => yanked,
            None => false,
        }
    }

    /// Whether one of the invoice's parcels has the digest `sha`.
    pub fn lists_parcel(&self, sha: &str) -> (res: bool)
        ensures
            res == self@.lists_parcel(sha@),
    {
        let wanted = sha.to_owned();
        match &self.parcel {
            Some(parcels) => {
                let mut i: usize = 0;
                while i < parcels.len()
                    invariant
                        i <= parcels@.len(),
                        wanted@ == sha@,
                        self@.parcels() == parcels@,
                        forall|j: int|
                            0 <= j < i ==> (#[trigger] parcels@[j]).label.sha256@ != sha@,
                    decreases parcels@.len() - i,
                {
                    if parcels[i].label.sha256 == wanted {
                        assert(self@.parcels()[i as int].label.sha256@ == sha@);
                        return true;
                    }
                    i = i + 1;
                }
                false
            },
            None => false,
        }
    }
}

} // verus!
