use crate::entry::{app_view, parse_desktop_file, parse_spec, AppView, DesktopApp};
use crate::rank::catalog_view;
use vstd::prelude::*;

verus! {

/// The catalog that descriptor texts yield, in order: each text that was read
/// and parses to a record contributes it; unread texts (`None`) and rejected
/// ones contribute nothing. Equal records are all kept.
pub open spec fn catalog_spec(texts: Seq<Option<Seq<char>>>) -> Seq<AppView>
    decreases texts.len(),
{
    if texts.len() == 0 {
        Seq::empty()
    } else {
        let before = catalog_spec(texts.drop_last());
        match texts.last() {
            Some(t) => match parse_spec(t) {
                Some(a) => before.push(a),
                None => before,
            },
            None => before,
        }
    }
}

/// Builds the catalog from the texts of the located descriptor files, in
/// their order; `None` stands for a file that could not be read.
pub fn build_catalog(texts: &Vec<Option<String>>) -> (r: Vec<DesktopApp>)
    ensures
        catalog_view(r@) == catalog_spec(texts.deep_view()),
{
    let ghost all = texts.deep_view();
    let mut apps: Vec<DesktopApp> = Vec::new();
    let mut i: usize = 0;
    while i < texts.len()
        invariant
            i <= texts.len(),
            all == texts.deep_view(),
            catalog_view(apps@) == catalog_spec(all.take(i as int)),
        decreases texts.len() - i,
    {
        assert(all.take(i + 1).drop_last() =~= all.take(i as int));
        let ghost prev = catalog_view(apps@);
        match &texts[i] {
            Some(t) => {
                let parsed = parse_desktop_file(t.clone());
                match parsed {
                    Some(a) => {
                        apps.push(a);
                        assert(catalog_view(apps@) =~= prev.push(a@));
                    },
                    None => {},
                }
            },
            None => {},
        }
        i = i + 1;
    }
    assert(all.take(i as int) =~= all);
    apps
}

} // verus!
