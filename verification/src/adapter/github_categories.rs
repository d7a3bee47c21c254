//! Selection of GitHub metadata categories.

use crate::ordering::{dedup_sorted, has_tie, lemma_sorted_members, sort_stable, Ranked};
use crate::policy::config::{
    copy_strings, CategoryModel, GithubMetaCategoryMode, DEFAULT_GITHUB_META_CATEGORIES,
};
use crate::text::{
    from_chars, lemma_text_le_antisymmetric, lower, lower_chars, same_text, text_le, to_chars, trim,
    trim_chars, views,
};
use vstd::prelude::*;

verus! {

/// Category selection recorded with a GitHub metadata cache generation.
#[derive(Debug, Clone, PartialEq, Eq)]
pub struct GithubMetaCategorySidecar {
    /// Stable selection mode identifier.
    pub mode: String,
    /// Sorted selected categories when the mode is explicit.
    pub categories: Vec<String>,
}

/// Which categories are used.
#[derive(Debug, Clone, PartialEq, Eq)]
pub enum CategorySelection {
    /// All of them.
    All,
    /// The listed ones.
    Selected(Vec<String>),
}

/// The selected categories; `None` for all of them.
pub open spec fn selected_categories(selection: CategorySelection) -> Option<Seq<Seq<char>>> {
    match selection {
        CategorySelection::All => None,
        CategorySelection::Selected(categories) => Some(views(categories@)),
    }
}

/// Texts in strictly ascending order.
pub open spec fn ascending_texts(texts: Seq<Seq<char>>) -> bool {
    forall|i: int, j: int|
        0 <= i < j < texts.len() ==> text_le(#[trigger] texts[i], #[trigger] texts[j]) && texts[i]
            != texts[j]
}

/// A category in its normal form.
pub open spec fn normal_category(value: Seq<char>) -> Seq<char> {
    lower(trim(value))
}

/// The text is the normal form of a value.
pub open spec fn normalizes(values: Seq<Seq<char>>, text: Seq<char>) -> bool {
    text.len() > 0 && exists|i: int|
        0 <= i < values.len() && normal_category(#[trigger] values[i]) == text
}

/// The normal forms of the values, each once and in ascending order, without the empty one.
pub open spec fn normalized_categories(values: Seq<Seq<char>>, categories: Seq<Seq<char>>) -> bool {
    &&& ascending_texts(categories)
    &&& forall|text: Seq<char>| #[trigger] categories.contains(text) <==> normalizes(values, text)
}

/// The normal form of a selection is unique.
pub proof fn lemma_normalized_unique(
    values: Seq<Seq<char>>,
    a: Seq<Seq<char>>,
    b: Seq<Seq<char>>,
)
    requires
        normalized_categories(values, a),
        normalized_categories(values, b),
    ensures
        a == b,
{
    assert forall|text: Seq<char>| #[trigger] a.contains(text) <==> b.contains(text) by {}
    lemma_ascending_unique(a, b);
}

/// Two ascending lists of the same texts are equal.
proof fn lemma_ascending_unique(a: Seq<Seq<char>>, b: Seq<Seq<char>>)
    requires
        ascending_texts(a),
        ascending_texts(b),
        forall|text: Seq<char>| #[trigger] a.contains(text) <==> b.contains(text),
    ensures
        a == b,
    decreases a.len(),
{
    if a.len() == 0 {
        if b.len() > 0 {
            assert(b.contains(b[0]));
            assert(a.contains(b[0]));
        }
        assert(a =~= b);
    } else {
        assert(a.contains(a.last()));
        let j = choose|j: int| 0 <= j < b.len() && b[j] == a.last();
        assert(b.contains(b.last()));
        assert(a.contains(b.last()));
        let i = choose|i: int| 0 <= i < a.len() && a[i] == b.last();
        if j < b.len() - 1 {
            assert(text_le(b[j], b[b.len() - 1]));
            if i < a.len() - 1 {
                assert(text_le(a[i], a[a.len() - 1]));
                lemma_text_le_antisymmetric(a.last(), b.last());
                assert(a[i] != a[a.len() - 1]);
            } else {
                assert(b[j] != b[b.len() - 1]);
            }
        }
        assert(a.last() == b.last());
        let x = a.drop_last();
        let y = b.drop_last();
        assert forall|text: Seq<char>| #[trigger] x.contains(text) <==> y.contains(text) by {
            if x.contains(text) {
                let k = choose|k: int| 0 <= k < x.len() && x[k] == text;
                assert(a[k] == text);
                assert(a.contains(text));
                let m = choose|m: int| 0 <= m < b.len() && b[m] == text;
                assert(a[k] != a[a.len() - 1]);
                assert(y[m] == text);
            }
            if y.contains(text) {
                let k = choose|k: int| 0 <= k < y.len() && y[k] == text;
                assert(b[k] == text);
                assert(b.contains(text));
                assert(a.contains(text));
                let m = choose|m: int| 0 <= m < a.len() && a[m] == text;
                assert(b[k] != b[b.len() - 1]);
                assert(x[m] == text);
            }
        }
        assert forall|p: int, q: int| 0 <= p < q < x.len() implies text_le(
            #[trigger] x[p],
            #[trigger] x[q],
        ) && x[p] != x[q] by {
            assert(x[p] == a[p] && x[q] == a[q]);
        }
        assert forall|p: int, q: int| 0 <= p < q < y.len() implies text_le(
            #[trigger] y[p],
            #[trigger] y[q],
        ) && y[p] != y[q] by {
            assert(y[p] == b[p] && y[q] == b[q]);
        }
        lemma_ascending_unique(x, y);
        assert(a =~= x.push(a.last()));
        assert(b =~= y.push(b.last()));
    }
}

/// Lists the normal forms of categories.
pub fn normalize_categories(values: &Vec<String>) -> (categories: Vec<String>)
    ensures
        normalized_categories(views(values@), views(categories@)),
{
    let ghost given = views(values@);
    let mut found: Vec<String> = Vec::new();
    let mut i: usize = 0;
    while i < values.len()
        invariant
            i <= values@.len(),
            given == views(values@),
            forall|k: int|
                0 <= k < found@.len() ==> (#[trigger] found@[k])@.len() > 0 && normalizes(
                    given,
                    found@[k]@,
                ),
            forall|k: int|
                0 <= k < i && normal_category(#[trigger] given[k]).len() > 0 ==> views(
                    found@,
                ).contains(normal_category(given[k])),
        decreases values@.len() - i,
    {
        let ghost before = found@;
        let chars: Vec<char> = to_chars(values[i].as_str());
        let name: Vec<char> = lower_chars(trim_chars(chars.as_slice()));
        assert(given[i as int] == values@[i as int]@);
        assert(name@ == normal_category(given[i as int]));
        if name.len() > 0 {
            found.push(from_chars(name.as_slice()));
            assert(views(found@)[found@.len() - 1] == name@);
        }
        proof {
            assert forall|k: int| 0 <= k < i + 1 && normal_category(#[trigger] given[k]).len()
                > 0 implies views(found@).contains(normal_category(given[k])) by {
                if k < i {
                    let was = views(before);
                    let m = choose|m: int|
                        0 <= m < was.len() && was[m] == normal_category(given[k]);
                    assert(views(found@)[m] == was[m]);
                }
            }
        }
        i += 1;
    }
    let ghost all = found@;
    let sorted: Vec<String> = sort_stable(found);
    let ghost ordered = sorted@;
    proof {
        lemma_sorted_members(all, ordered);
    }
    let unique: Vec<String> = dedup_sorted(sorted);
    proof {
        let texts = views(unique@);
        assert forall|p: int, q: int| 0 <= p < q < texts.len() implies text_le(
            #[trigger] texts[p],
            #[trigger] texts[q],
        ) && texts[p] != texts[q] by {
            let (a, b) = (unique@[p], unique@[q]);
            assert(a.ranked_le(b) && !b.ranked_le(a));
        }
        assert forall|text: Seq<char>| #[trigger] texts.contains(text) <==> normalizes(
            given,
            text,
        ) by {
            if texts.contains(text) {
                let k = choose|k: int| 0 <= k < texts.len() && texts[k] == text;
                assert(unique@.contains(unique@[k]));
                assert(ordered.contains(unique@[k]));
                assert(all.contains(unique@[k]));
                let m = choose|m: int| 0 <= m < all.len() && all[m] == unique@[k];
                assert(all[m]@ == text);
            }
            if normalizes(given, text) {
                let k = choose|k: int|
                    0 <= k < given.len() && normal_category(#[trigger] given[k]) == text;
                assert(views(all).contains(text));
                let m = choose|m: int| 0 <= m < views(all).len() && views(all)[m] == text;
                assert(all.contains(all[m]));
                assert(ordered.contains(all[m]));
                assert(has_tie(unique@, all[m]));
                let t = choose|t: int|
                    0 <= t < unique@.len() && (#[trigger] unique@[t]).ranked_le(all[m])
                        && all[m].ranked_le(unique@[t]);
                lemma_text_le_antisymmetric(unique@[t]@, text);
                assert(texts[t] == text);
            }
        }
    }
    unique
}

/// Categories that are used where none are configured.
pub open spec fn default_categories() -> Seq<Seq<char>> {
    seq!["api"@, "git"@, "hooks"@, "packages"@]
}

/// The categories that a mode names; `None` for all of them.
pub open spec fn mode_categories(mode: CategoryModel) -> Option<Seq<Seq<char>>> {
    match mode {
        CategoryModel::All => None,
        CategoryModel::Default => Some(default_categories()),
        CategoryModel::Explicit(values) => Some(values),
    }
}

/// The selection is that of the mode.
pub open spec fn selection_of(mode: CategoryModel, selection: CategorySelection) -> bool {
    match mode_categories(mode) {
        None => selection is All,
        Some(values) => selection matches CategorySelection::Selected(categories)
            && normalized_categories(values, views(categories@)),
    }
}

impl CategorySelection {
    /// Resolves a configured mode.
    pub fn from_mode(mode: &GithubMetaCategoryMode) -> (selection: CategorySelection)
        ensures
            selection_of(mode@, selection),
    {
        match mode {
            GithubMetaCategoryMode::All => CategorySelection::All,
            GithubMetaCategoryMode::Default => {
                let mut values: Vec<String> = Vec::new();
                values.push(DEFAULT_GITHUB_META_CATEGORIES[0].to_owned());
                values.push(DEFAULT_GITHUB_META_CATEGORIES[1].to_owned());
                values.push(DEFAULT_GITHUB_META_CATEGORIES[2].to_owned());
                values.push(DEFAULT_GITHUB_META_CATEGORIES[3].to_owned());
                assert(views(values@) =~= default_categories());
                CategorySelection::Selected(normalize_categories(&values))
            },
            GithubMetaCategoryMode::Explicit(values) => CategorySelection::Selected(
                normalize_categories(values),
            ),
        }
    }

    /// The record of the selection.
    pub fn to_sidecar(&self) -> (sidecar: GithubMetaCategorySidecar)
        ensures
            match selected_categories(*self) {
                None => sidecar.mode@ == "all"@ && sidecar.categories@.len() == 0,
                Some(categories) => sidecar.mode@ == "selected"@ && views(sidecar.categories@)
                    == categories,
            },
    {
        match self {
            CategorySelection::All => GithubMetaCategorySidecar {
                mode: "all".to_owned(),
                categories: Vec::new(),
            },
            CategorySelection::Selected(categories) => GithubMetaCategorySidecar {
                mode: "selected".to_owned(),
                categories: copy_strings(categories),
            },
        }
    }
}

/// A cache recorded with a selection can be used for another: for all categories any can, and for
/// selected ones only a cache of the same.
pub open spec fn scope_compatible(
    selection: CategorySelection,
    sidecar: Option<GithubMetaCategorySidecar>,
) -> bool {
    match selected_categories(selection) {
        None => true,
        Some(categories) => sidecar matches Some(record) && record.mode@ == "selected"@
            && normalized_categories(views(record.categories@), categories),
    }
}

fn same_strings(a: &Vec<String>, b: &Vec<String>) -> (same: bool)
    ensures
        same == (views(a@) == views(b@)),
{
    if a.len() != b.len() {
        assert(views(a@).len() != views(b@).len());
        return false;
    }
    let mut i: usize = 0;
    while i < a.len()
        invariant
            i <= a@.len(),
            a@.len() == b@.len(),
            forall|k: int| 0 <= k < i ==> (#[trigger] a@[k])@ == b@[k]@,
        decreases a@.len() - i,
    {
        if !same_text(a[i].as_str(), b[i].as_str()) {
            assert(views(a@)[i as int] != views(b@)[i as int]);
            return false;
        }
        i += 1;
    }
    assert(views(a@) =~= views(b@));
    true
}

/// Decides [`scope_compatible`].
pub fn cache_scope_compatible(
    selection: &CategorySelection,
    sidecar: &Option<GithubMetaCategorySidecar>,
) -> (compatible: bool)
    ensures
        compatible == scope_compatible(*selection, *sidecar),
{
    match selection {
        CategorySelection::All => true,
        CategorySelection::Selected(categories) => match sidecar {
            None => false,
            Some(record) => {
                if !same_text(record.mode.as_str(), "selected") {
                    return false;
                }
                let recorded: Vec<String> = normalize_categories(&record.categories);
                let same: bool = same_strings(&recorded, categories);
                proof {
                    if normalized_categories(views(record.categories@), views(categories@)) {
                        lemma_normalized_unique(
                            views(record.categories@),
                            views(recorded@),
                            views(categories@),
                        );
                    }
                }
                same
            },
        },
    }
}

/// The normal form of normal forms is the same.
proof fn lemma_normal_category_stable(value: Seq<char>)
    ensures
        normal_category(normal_category(value)) == normal_category(value),
{
    let t = trim(value);
    let s = lower(t);
    crate::text::lemma_trim_idempotent(value);
    crate::text::lemma_trim_start_shape(value);
    crate::text::lemma_trim_end_shape(crate::text::trim_start(value));
    assert forall|i: int| 0 <= i < s.len() implies crate::text::is_space(#[trigger] s[i])
        == crate::text::is_space(t[i]) by {}
    assert(trim(s) == s) by {
        if s.len() > 0 {
            assert(crate::text::is_space(s[0]) == crate::text::is_space(t[0]));
            assert(crate::text::is_space(s[s.len() - 1]) == crate::text::is_space(t[t.len() - 1]));
            assert(trim(t) == t);
            lemma_trimmed_ends(t);
        }
    }
    assert(lower(s) =~= s);
}

/// A text that trims to itself has no white space at its ends.
proof fn lemma_trimmed_ends(t: Seq<char>)
    requires
        trim(t) == t,
        t.len() > 0,
    ensures
        !crate::text::is_space(t[0]),
        !crate::text::is_space(t[t.len() - 1]),
{
    crate::text::lemma_trim_start_shape(t);
    crate::text::lemma_trim_end_shape(crate::text::trim_start(t));
}

/// What is cached for a selection can be used for the same selection: the record that a selection
/// leaves is compatible with it.
pub proof fn law_recorded_scope_is_compatible(
    values: Seq<Seq<char>>,
    selection: CategorySelection,
    sidecar: GithubMetaCategorySidecar,
)
    requires
        selection is All || normalized_categories(values, selected_categories(selection)->0),
        match selected_categories(selection) {
            None => sidecar.mode@ == "all"@ && sidecar.categories@.len() == 0,
            Some(categories) => sidecar.mode@ == "selected"@ && views(sidecar.categories@)
                == categories,
        },
    ensures
        scope_compatible(selection, Some(sidecar)),
{
    if let Some(categories) = selected_categories(selection) {
        assert forall|text: Seq<char>| #[trigger] categories.contains(text) <==> normalizes(
            categories,
            text,
        ) by {
            if categories.contains(text) {
                assert(normalizes(values, text));
                let k = choose|k: int|
                    0 <= k < values.len() && normal_category(#[trigger] values[k]) == text;
                lemma_normal_category_stable(values[k]);
                let m = choose|m: int| 0 <= m < categories.len() && categories[m] == text;
                assert(normal_category(categories[m]) == text);
            }
            if normalizes(categories, text) {
                let m = choose|m: int|
                    0 <= m < categories.len() && normal_category(#[trigger] categories[m]) == text;
                assert(categories.contains(categories[m]));
                assert(normalizes(values, categories[m]));
                let k = choose|k: int|
                    0 <= k < values.len() && normal_category(#[trigger] values[k])
                        == categories[m];
                lemma_normal_category_stable(values[k]);
                assert(categories[m] == text);
            }
        }
    }
}

} // verus!
