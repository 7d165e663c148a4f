//! Helpers for parsing rules and for showing their results: the URL that a
//! form leads to, a query parameter set on a URL, and words for yes and no.

use crate::weburl::{
    append_pair, join, joined_url, pair_views, query_pairs, url_query, url_with_pair,
    url_with_query, with_query,
};
use crate::text::{eq_ignore_ascii_case, same_ignoring_ascii_case};
use vstd::prelude::*;

verus! {

/// The word for a yes or a no.
pub fn label<'a>(v: bool, yes: &'a str, no: &'a str) -> (word: &'a str)
    ensures
        word == if v {
            yes
        } else {
            no
        },
{
    if v {
        yes
    } else {
        no
    }
}

/// A `select` element of a form: its `name` attribute, and the `value`
/// attribute of the first of its options that is selected. `selected` is
/// `None` where no option is selected, and holds `None` where the selected
/// option has no `value`.
pub struct SelectElement {
    pub name: Option<String>,
    pub selected: Option<Option<String>>,
}

/// What the contracts see of an element: the name of its tag, its `action`
/// attribute, and the `select` elements below it that carry a name.
pub struct FormElement {
    pub tag: String,
    pub action: Option<String>,
    pub selects: Vec<SelectElement>,
}

/// The query parameter that a `select` element adds to the URL of its form:
/// its name and the value of its selected option, where neither is missing
/// or empty.
pub open spec fn parameter_of(select: SelectElement) -> Option<(Seq<char>, Seq<char>)> {
    match (select.name, select.selected) {
        (Some(name), Some(Some(value))) => if name@.len() > 0 && value@.len() > 0 {
            Some((name@, value@))
        } else {
            None
        },
        _ => None,
    }
}

/// The URL `url` after the parameters of `selects` were appended to its
/// query, one after the other.
pub open spec fn with_selected(url: Seq<char>, selects: Seq<SelectElement>) -> Seq<char>
    decreases selects.len(),
{
    if selects.len() == 0 {
        url
    } else {
        let so_far = with_selected(url, selects.drop_last());
        match parameter_of(selects.last()) {
            Some((name, value)) => match url_with_pair(so_far, name, value) {
                Some(longer) => longer,
                None => so_far,
            },
            None => so_far,
        }
    }
}

/// The URL that a form on the page at `base_url` leads to: its action
/// resolved against `base_url`, with a query parameter for every select that
/// has a name and a selected option with a value. `None` where the element
/// is no form or the action cannot be resolved.
pub open spec fn form_action(base_url: Seq<char>, root: FormElement) -> Option<Seq<char>> {
    if !same_ignoring_ascii_case(root.tag@, "form"@) {
        None
    } else {
        match joined_url(
            base_url,
            match root.action {
                Some(action) => action@,
                None => Seq::empty(),
            },
        ) {
            Some(url) => Some(with_selected(url, root.selects@)),
            None => None,
        }
    }
}

/// Simple utility to calculate the effective URL of a form.
pub struct Form {
    root: FormElement,
    base_url: String,
}

impl Form {
    /// The form `root` on the page at `base_url`.
    pub fn new(base_url: String, root: FormElement) -> (form: Form)
        ensures
            form.base() == base_url@,
            form.element() == root,
    {
        Form { root, base_url }
    }

    /// The URL of the page that holds the form.
    pub closed spec fn base(&self) -> Seq<char> {
        self.base_url@
    }

    /// The element of the form.
    pub closed spec fn element(&self) -> FormElement {
        self.root
    }

    /// Returns the form's action URL with respect to its selected fields.
    pub fn action(&self) -> (url: Option<String>)
        ensures
            match url {
                Some(text) => form_action(self.base(), self.element()) == Some(text@),
                None => form_action(self.base(), self.element()) is None,
            },
    {
        if !eq_ignore_ascii_case(self.root.tag.as_str(), "form") {
            return None;
        }
        let joined = match &self.root.action {
            Some(action) => join(self.base_url.as_str(), action.as_str()),
            None => join(self.base_url.as_str(), ""),
        };
        proof {
            reveal_strlit("");
            assert(""@ =~= Seq::<char>::empty());
        }
        let mut url = match joined {
            Ok(url) => url,
            Err(_) => {
                return None;
            },
        };
        let ghost start = url@;
        let mut i: usize = 0;
        proof {
            assert(self.root.selects@.take(0) =~= Seq::<SelectElement>::empty());
        }
        while i < self.root.selects.len()
            invariant
                i <= self.root.selects@.len(),
                url@ == with_selected(start, self.root.selects@.take(i as int)),
            decreases self.root.selects@.len() - i,
        {
            proof {
                assert(self.root.selects@.take(i + 1).drop_last() == self.root.selects@.take(
                    i as int,
                ));
                assert(self.root.selects@.take(i + 1).last() == self.root.selects@[i as int]);
            }
            let select = &self.root.selects[i];
            if let Some(name) = &select.name {
                if let Some(Some(value)) = &select.selected {
                    if !name.as_str().is_empty() && !value.as_str().is_empty() {
                        match append_pair(url.as_str(), name.as_str(), value.as_str()) {
                            Ok(longer) => {
                                url = longer;
                            },
                            Err(_) => {},
                        }
                    }
                }
            }
            i += 1;
        }
        proof {
            assert(self.root.selects@.take(self.root.selects@.len() as int) == self.root.selects@);
        }
        Some(url)
    }
}

/// The pairs of `existing` whose name is not `name`, in their order.
pub open spec fn others(existing: Seq<(Seq<char>, Seq<char>)>, name: Seq<char>) -> Seq<
    (Seq<char>, Seq<char>),
>
    decreases existing.len(),
{
    if existing.len() == 0 {
        Seq::empty()
    } else if existing.last().0 == name {
        others(existing.drop_last(), name)
    } else {
        others(existing.drop_last(), name).push(existing.last())
    }
}

/// The query of a URL after the parameter `name` was set to `value`: the
/// parameter first, then what the query held under other names.
pub open spec fn query_with(
    existing: Seq<(Seq<char>, Seq<char>)>,
    name: Seq<char>,
    value: Seq<char>,
) -> Seq<(Seq<char>, Seq<char>)> {
    seq![(name, value)] + others(existing, name)
}

/// Puts the query of a URL together anew with the parameter `name` set to
/// `value`: the parameter comes first, what the query held under that name
/// goes, and the other parameters follow in their order.
pub fn set_query_param(existing: Vec<(String, String)>, name: &str, value: &str) -> (query: Vec<
    (String, String),
>)
    ensures
        pair_views(query@) == query_with(pair_views(existing@), name@, value@),
{
    let wanted = name.to_owned();
    let mut query: Vec<(String, String)> = Vec::new();
    query.push((name.to_owned(), value.to_owned()));
    let ghost all = pair_views(existing@);
    let mut i: usize = 0;
    proof {
        assert(all.take(0) =~= Seq::<(Seq<char>, Seq<char>)>::empty());
        assert(pair_views(query@) =~= seq![(name@, value@)] + others(all.take(0), name@));
    }
    while i < existing.len()
        invariant
            i <= existing@.len(),
            all == pair_views(existing@),
            wanted@ == name@,
            pair_views(query@) == seq![(name@, value@)] + others(all.take(i as int), name@),
        decreases existing@.len() - i,
    {
        proof {
            assert(all.take(i + 1).drop_last() == all.take(i as int));
            assert(all.take(i + 1).last() == all[i as int]);
        }
        let ghost before = pair_views(query@);
        if existing[i].0 != wanted {
            query.push((existing[i].0.clone(), existing[i].1.clone()));
            proof {
                assert(pair_views(query@) =~= before.push(all[i as int]));
                assert(pair_views(query@) =~= seq![(name@, value@)] + others(
                    all.take(i + 1),
                    name@,
                ));
            }
        }
        i += 1;
    }
    proof {
        assert(all.take(existing@.len() as int) == all);
    }
    query
}

/// Sets the query parameter `name` of `url` to `value`. `None` where `url`
/// is no absolute URL.
pub fn url_set_query_param(url: &str, name: &str, value: &str) -> (changed: Option<String>)
    ensures
        match url_query(url@) {
            Some(existing) => match changed {
                Some(text) => url_with_query(url@, query_with(existing, name@, value@)) == Some(
                    text@,
                ),
                None => url_with_query(url@, query_with(existing, name@, value@)) is None,
            },
            None => changed is None,
        },
{
    let existing = match query_pairs(url) {
        Ok(existing) => existing,
        Err(_) => {
            return None;
        },
    };
    let query = set_query_param(existing, name, value);
    match with_query(url, &query) {
        Ok(text) => Some(text),
        Err(_) => None,
    }
}

} // verus!
