//! The catalog: the applications that descriptors and configuration give,
//! in the order in which they are handed on for ranking.

use crate::config::{AppsConfig, AppsConfigView, Config, CustomAppView};
use crate::desktop::{
    app_opt_view, apps_view, custom_app, is_launchable, normalize, normalized, App, AppView,
};
use crate::entry::{
    decode_descriptor, descriptors_view, read_descriptor, Descriptor, DescriptorView,
};
use crate::order::{
    insert_point, is_sorted, is_total_preorder, lemma_stable_sort_keeps_ties,
    lemma_stable_sort_permutes, lemma_stable_sort_sorted, stable_sort, ties_with,
};
use crate::text::{chars_of, contains_text, lowercase, strings_view, to_lowercase};
use vstd::prelude::*;

verus! {

/// Whether text `a` comes before text `b`, or is the same: character by
/// character, a character of lower code point first, a text before its
/// extensions.
pub open spec fn text_le(a: Seq<char>, b: Seq<char>) -> bool
    decreases a.len(),
{
    if a.len() == 0 {
        true
    } else if b.len() == 0 {
        false
    } else if a[0] as u32 != b[0] as u32 {
        (a[0] as u32) < (b[0] as u32)
    } else {
        text_le(a.skip(1), b.skip(1))
    }
}

/// Of two texts one comes before the other, or they are the same.
pub proof fn lemma_text_le_total(a: Seq<char>, b: Seq<char>)
    ensures
        text_le(a, b) || text_le(b, a),
    decreases a.len(),
{
    if a.len() > 0 && b.len() > 0 && a[0] as u32 == b[0] as u32 {
        lemma_text_le_total(a.skip(1), b.skip(1));
    }
}

/// The order of texts chains.
pub proof fn lemma_text_le_transitive(a: Seq<char>, b: Seq<char>, c: Seq<char>)
    requires
        text_le(a, b),
        text_le(b, c),
    ensures
        text_le(a, c),
    decreases a.len(),
{
    if a.len() > 0 && b.len() > 0 && c.len() > 0 && a[0] as u32 == b[0] as u32 && b[0] as u32
        == c[0] as u32 {
        lemma_text_le_transitive(a.skip(1), b.skip(1), c.skip(1));
    }
}

/// Decides whether text `a` comes before text `b` or is the same.
pub fn text_precedes(a: &Vec<char>, b: &Vec<char>) -> (r: bool)
    ensures
        r == text_le(a@, b@),
{
    let mut i: usize = 0;
    assert(a@.skip(0) =~= a@ && b@.skip(0) =~= b@);
    loop
        invariant
            i <= a.len(),
            i <= b.len(),
            text_le(a@, b@) == text_le(a@.skip(i as int), b@.skip(i as int)),
        decreases a.len() - i,
    {
        if i == a.len() {
            return true;
        }
        if i == b.len() {
            return false;
        }
        let x: u32 = a[i] as u32;
        let y: u32 = b[i] as u32;
        assert(a@.skip(i as int)[0] == a[i as int] && b@.skip(i as int)[0] == b[i as int]);
        if x != y {
            return x < y;
        }
        assert(a@.skip(i as int).skip(1) =~= a@.skip(i + 1));
        assert(b@.skip(i as int).skip(1) =~= b@.skip(i + 1));
        i = i + 1;
    }
}

/// The order of the catalog: favorites before all others; among favorites,
/// and among the others, by name in lower case.
pub open spec fn catalog_order(favorites: Seq<Seq<char>>) -> spec_fn(AppView, AppView) -> bool {
    |a: AppView, b: AppView|
        {
            let fa = favorites.contains(a.name);
            let fb = favorites.contains(b.name);
            (fa && !fb) || (fa == fb && text_le(lowercase(a.name), lowercase(b.name)))
        }
}

/// The order of the catalog compares any two applications, and chains.
pub proof fn lemma_catalog_order(favorites: Seq<Seq<char>>)
    ensures
        is_total_preorder(catalog_order(favorites)),
{
    let le = catalog_order(favorites);
    assert forall|a: AppView, b: AppView| #[trigger] le(a, b) || #[trigger] le(b, a) by {
        lemma_text_le_total(lowercase(a.name), lowercase(b.name));
    }
    assert forall|a: AppView, b: AppView, c: AppView| #[trigger]
        le(a, b) && #[trigger] le(b, c) implies le(a, c) by {
        let fa = favorites.contains(a.name);
        let fb = favorites.contains(b.name);
        let fc = favorites.contains(c.name);
        if fa == fb && fb == fc {
            lemma_text_le_transitive(lowercase(a.name), lowercase(b.name), lowercase(c.name));
        }
    }
}

/// The applications that descriptors give, in the descriptors' order: each
/// descriptor that stands for an application gives it, unless its name is excluded.
pub open spec fn listed(descriptors: Seq<DescriptorView>, exclude: Seq<Seq<char>>) -> Seq<AppView>
    decreases descriptors.len(),
{
    if descriptors.len() == 0 {
        Seq::empty()
    } else {
        let before = listed(descriptors.drop_last(), exclude);
        match normalized(descriptors.last()) {
            Some(app) => if exclude.contains(app.name) {
                before
            } else {
                before.push(app)
            },
            None => before,
        }
    }
}

/// The applications that configured entries give, one each, in order.
pub open spec fn custom_apps(customs: Seq<CustomAppView>) -> Seq<AppView> {
    Seq::new(customs.len(), |i: int| custom_app(customs[i]))
}

/// The applications before they are ordered: those from descriptors first,
/// then the configured ones, which no exclusion touches.
pub open spec fn candidates(descriptors: Seq<DescriptorView>, apps: AppsConfigView) -> Seq<
    AppView,
> {
    listed(descriptors, apps.exclude) + custom_apps(apps.custom)
}

/// The catalog: the candidates in catalog order, applications that tie
/// staying in the order in which they were found.
pub open spec fn catalog(descriptors: Seq<DescriptorView>, apps: AppsConfigView) -> Seq<AppView> {
    stable_sort(candidates(descriptors, apps), catalog_order(apps.favorites))
}

/// No application from a descriptor carries an excluded name, and each is
/// started directly.
pub proof fn lemma_listed(descriptors: Seq<DescriptorView>, exclude: Seq<Seq<char>>)
    ensures
        forall|i: int|
            0 <= i < listed(descriptors, exclude).len() ==> {
                &&& !exclude.contains((#[trigger] listed(descriptors, exclude)[i]).name)
                &&& listed(descriptors, exclude)[i].launch_strategy is Direct
                &&& is_launchable(listed(descriptors, exclude)[i])
            },
    decreases descriptors.len(),
{
    if descriptors.len() > 0 {
        lemma_listed(descriptors.drop_last(), exclude);
    }
}

/// What the catalog lists is a candidate.
pub proof fn lemma_catalog_holds_candidates(
    descriptors: Seq<DescriptorView>,
    apps: AppsConfigView,
    i: int,
)
    requires
        0 <= i < catalog(descriptors, apps).len(),
    ensures
        candidates(descriptors, apps).contains(catalog(descriptors, apps)[i]),
{
    broadcast use vstd::seq_lib::group_to_multiset_ensures;

    let all = candidates(descriptors, apps);
    let sorted = catalog(descriptors, apps);
    lemma_stable_sort_permutes(all, catalog_order(apps.favorites));
    assert(sorted.contains(sorted[i]));
    assert(sorted.to_multiset().count(sorted[i]) > 0);
}

/// An application whose name is excluded is not in the catalog, whether or
/// not it is a favorite, unless a configured application carries the name.
pub proof fn lemma_excluded_never_listed(
    descriptors: Seq<DescriptorView>,
    apps: AppsConfigView,
    name: Seq<char>,
)
    requires
        apps.exclude.contains(name),
        forall|k: int| 0 <= k < apps.custom.len() ==> (#[trigger] apps.custom[k]).name != name,
    ensures
        forall|i: int|
            0 <= i < catalog(descriptors, apps).len() ==> (#[trigger] catalog(
                descriptors,
                apps,
            )[i]).name != name,
{
    let sorted = catalog(descriptors, apps);
    let found = listed(descriptors, apps.exclude);
    let configured = custom_apps(apps.custom);
    assert forall|i: int| 0 <= i < sorted.len() implies (#[trigger] sorted[i]).name != name by {
        lemma_catalog_holds_candidates(descriptors, apps, i);
        let k = choose|k: int|
            0 <= k < (found + configured).len() && (found + configured)[k] == sorted[i];
        if k < found.len() {
            lemma_listed(descriptors, apps.exclude);
            assert(found[k] == sorted[i]);
        } else {
            assert(configured[k - found.len()] == sorted[i]);
            assert(apps.custom[k - found.len()].name != name);
        }
    }
}

/// The catalog is in catalog order, and everything in it can be launched.
pub proof fn lemma_catalog_sorted(descriptors: Seq<DescriptorView>, apps: AppsConfigView)
    ensures
        is_sorted(catalog(descriptors, apps), catalog_order(apps.favorites)),
        forall|i: int|
            0 <= i < catalog(descriptors, apps).len() ==> is_launchable(
                #[trigger] catalog(descriptors, apps)[i],
            ),
{
    lemma_catalog_order(apps.favorites);
    lemma_stable_sort_sorted(candidates(descriptors, apps), catalog_order(apps.favorites));
    let sorted = catalog(descriptors, apps);
    let found = listed(descriptors, apps.exclude);
    let configured = custom_apps(apps.custom);
    assert forall|i: int| 0 <= i < sorted.len() implies is_launchable(#[trigger] sorted[i]) by {
        lemma_catalog_holds_candidates(descriptors, apps, i);
        let k = choose|k: int|
            0 <= k < (found + configured).len() && (found + configured)[k] == sorted[i];
        if k < found.len() {
            lemma_listed(descriptors, apps.exclude);
            assert(found[k] == sorted[i]);
        } else {
            assert(configured[k - found.len()] == sorted[i]);
        }
    }
}

/// Applications that tie in catalog order stand in the catalog in the order
/// in which they were found: those from descriptors in the descriptors'
/// order, then the configured ones in theirs.
pub proof fn lemma_catalog_keeps_ties(
    descriptors: Seq<DescriptorView>,
    apps: AppsConfigView,
    app: AppView,
)
    ensures
        catalog(descriptors, apps).filter(ties_with(app, catalog_order(apps.favorites)))
            == candidates(descriptors, apps).filter(ties_with(app, catalog_order(apps.favorites))),
{
    lemma_catalog_order(apps.favorites);
    lemma_stable_sort_keeps_ties(candidates(descriptors, apps), catalog_order(apps.favorites), app);
}

/// What an application is ordered by.
struct Rank {
    favorite: bool,
    lowered: Vec<char>,
}

impl Rank {
    /// This is the rank of `app` among the given favorites.
    spec fn is_rank_of(self, app: AppView, favorites: Seq<Seq<char>>) -> bool {
        &&& self.favorite == favorites.contains(app.name)
        &&& self.lowered@ == lowercase(app.name)
    }

    /// The rank of `app`.
    fn of(app: &App, favorites: &Vec<String>) -> (rank: Rank)
        ensures
            rank.is_rank_of(app@, strings_view(favorites@)),
    {
        let lowered = to_lowercase(app.name.as_str());
        Rank { favorite: contains_text(favorites, &app.name), lowered: chars_of(lowered.as_str()) }
    }

    /// Whether what has this rank goes before what has the other, or ties with it.
    fn goes_before(&self, other: &Rank) -> (r: bool)
        ensures
            forall|a: AppView, b: AppView, favorites: Seq<Seq<char>>|
                self.is_rank_of(a, favorites) && other.is_rank_of(b, favorites) ==> r
                    == #[trigger] catalog_order(favorites)(a, b),
    {
        if self.favorite != other.favorite {
            self.favorite
        } else {
            text_precedes(&self.lowered, &other.lowered)
        }
    }
}

/// Puts applications into catalog order.
pub fn sort_apps(apps: &Vec<App>, favorites: &Vec<String>) -> (sorted: Vec<App>)
    ensures
        apps_view(sorted@) == stable_sort(
            apps_view(apps@),
            catalog_order(strings_view(favorites@)),
        ),
{
    let ghost favs = strings_view(favorites@);
    let ghost le = catalog_order(favs);
    let ghost all = apps_view(apps@);
    let mut sorted: Vec<App> = Vec::new();
    let mut ranks: Vec<Rank> = Vec::new();
    let mut i: usize = 0;
    assert(all.take(0) =~= Seq::<AppView>::empty());
    assert(apps_view(sorted@) =~= Seq::<AppView>::empty());
    while i < apps.len()
        invariant
            i <= apps.len(),
            all == apps_view(apps@),
            favs == strings_view(favorites@),
            le == catalog_order(favs),
            ranks.len() == sorted.len(),
            forall|j: int| 0 <= j < ranks.len() ==> (#[trigger] ranks[j]).is_rank_of(sorted[j]@, favs),
            apps_view(sorted@) == stable_sort(all.take(i as int), le),
        decreases apps.len() - i,
    {
        let ghost x = apps[i as int]@;
        let ghost done = apps_view(sorted@);
        let rank = Rank::of(&apps[i], favorites);
        let mut p: usize = sorted.len();
        assert(done.take(p as int) =~= done);
        while p > 0 && !ranks[p - 1].goes_before(&rank)
            invariant
                p <= sorted.len(),
                ranks.len() == sorted.len(),
                i < apps.len(),
                x == apps[i as int]@,
                done == apps_view(sorted@),
                le == catalog_order(favs),
                rank.is_rank_of(x, favs),
                forall|j: int|
                    0 <= j < ranks.len() ==> (#[trigger] ranks[j]).is_rank_of(sorted[j]@, favs),
                insert_point(done, x, le) == insert_point(done.take(p as int), x, le),
            decreases p,
        {
            assert(ranks[p - 1].is_rank_of(sorted[p - 1]@, favs));
            assert(!le(sorted[p - 1]@, x));
            assert(done.take(p as int).last() == sorted[p - 1]@);
            assert(done.take(p as int).drop_last() =~= done.take(p - 1));
            p = p - 1;
        }
        proof {
            if p > 0 {
                assert(ranks[p - 1].is_rank_of(sorted[p - 1]@, favs));
                assert(le(sorted[p - 1]@, x));
                assert(done.take(p as int).last() == sorted[p - 1]@);
            }
            assert(insert_point(done, x, le) == p);
            assert(all.take(i + 1).drop_last() =~= all.take(i as int));
            assert(all.take(i + 1).last() == x);
        }
        let ghost ranks_before = ranks@;
        let ghost sorted_before = sorted@;
        sorted.insert(p, apps[i].duplicate());
        ranks.insert(p, rank);
        proof {
            assert(apps_view(sorted@) =~= done.insert(p as int, x));
            assert forall|j: int| 0 <= j < ranks.len() implies (#[trigger] ranks[j]).is_rank_of(
                sorted[j]@,
                favs,
            ) by {
                if j < p {
                    assert(ranks[j] == ranks_before[j] && sorted[j] == sorted_before[j]);
                } else if j > p {
                    assert(ranks[j] == ranks_before[j - 1] && sorted[j] == sorted_before[j - 1]);
                }
            }
        }
        i = i + 1;
    }
    assert(all.take(apps.len() as int) =~= all);
    sorted
}

/// Builds the catalog from descriptors that were read already.
pub fn build_catalog(descriptors: &Vec<Descriptor>, apps: &AppsConfig) -> (listing: Vec<App>)
    ensures
        apps_view(listing@) == catalog(descriptors_view(descriptors@), apps@),
        is_sorted(apps_view(listing@), catalog_order(apps@.favorites)),
        forall|i: int| 0 <= i < listing.len() ==> is_launchable(#[trigger] listing[i]@),
{
    let ghost all = descriptors_view(descriptors@);
    let mut found: Vec<App> = Vec::new();
    let mut i: usize = 0;
    assert(all.take(0) =~= Seq::<DescriptorView>::empty());
    assert(apps_view(found@) =~= Seq::<AppView>::empty());
    while i < descriptors.len()
        invariant
            i <= descriptors.len(),
            all == descriptors_view(descriptors@),
            apps_view(found@) == listed(all.take(i as int), apps@.exclude),
        decreases descriptors.len() - i,
    {
        let ghost before = apps_view(found@);
        proof {
            assert(all.take(i + 1).drop_last() =~= all.take(i as int));
            assert(all.take(i + 1).last() == descriptors[i as int]@);
        }
        match normalize(&descriptors[i]) {
            Some(app) => {
                if !contains_text(&apps.exclude, &app.name) {
                    let ghost a = app@;
                    found.push(app);
                    assert(apps_view(found@) =~= before.push(a));
                }
            },
            None => {},
        }
        i = i + 1;
    }
    assert(all.take(descriptors.len() as int) =~= all);
    let ghost from_descriptors = apps_view(found@);
    let mut k: usize = 0;
    assert(custom_apps(apps@.custom).take(0) =~= Seq::<AppView>::empty());
    assert(from_descriptors + Seq::<AppView>::empty() =~= from_descriptors);
    while k < apps.custom.len()
        invariant
            k <= apps.custom.len(),
            apps_view(found@) == from_descriptors + custom_apps(apps@.custom).take(k as int),
        decreases apps.custom.len() - k,
    {
        let ghost before = apps_view(found@);
        let app = App::from_custom(&apps.custom[k]);
        let ghost a = app@;
        found.push(app);
        proof {
            assert(a == custom_apps(apps@.custom)[k as int]);
            assert(apps_view(found@) =~= before.push(a));
            assert(custom_apps(apps@.custom).take(k + 1) =~= custom_apps(apps@.custom).take(
                k as int,
            ).push(a));
            assert(apps_view(found@) =~= from_descriptors + custom_apps(apps@.custom).take(k + 1));
        }
        k = k + 1;
    }
    assert(custom_apps(apps@.custom).take(apps.custom.len() as int) =~= custom_apps(apps@.custom));
    let listing = sort_apps(&found, &apps.favorites);
    proof {
        lemma_catalog_sorted(all, apps@);
        assert forall|i: int| 0 <= i < listing.len() implies is_launchable(
            #[trigger] listing[i]@,
        ) by {
            assert(apps_view(listing@)[i] == listing[i]@);
        }
    }
    listing
}

/// A descriptor file as it was read: where it lies, and its text.
#[derive(Debug)]
pub struct DescriptorFile {
    pub path: String,
    pub contents: String,
}

/// A descriptor file as specifications see it.
pub struct DescriptorFileView {
    pub path: Seq<char>,
    pub contents: Seq<char>,
}

impl View for DescriptorFile {
    type V = DescriptorFileView;

    open spec fn view(&self) -> DescriptorFileView {
        DescriptorFileView { path: self.path@, contents: self.contents@ }
    }
}

/// The files of a list, as specifications see them.
pub open spec fn files_view(files: Seq<DescriptorFile>) -> Seq<DescriptorFileView> {
    Seq::new(files.len(), |i: int| files[i]@)
}

/// The descriptors that files hold, in the files' order; a file whose text
/// is no well-formed descriptor holds none.
pub open spec fn decoded(files: Seq<DescriptorFileView>) -> Seq<DescriptorView>
    decreases files.len(),
{
    if files.len() == 0 {
        Seq::empty()
    } else {
        let before = decoded(files.drop_last());
        match decode_descriptor(files.last().path, files.last().contents) {
            Some(d) => before.push(d),
            None => before,
        }
    }
}

/// Reads the descriptors that files hold.
pub fn read_descriptors(files: &Vec<DescriptorFile>) -> (descriptors: Vec<Descriptor>)
    ensures
        descriptors_view(descriptors@) == decoded(files_view(files@)),
{
    let ghost all = files_view(files@);
    let mut descriptors: Vec<Descriptor> = Vec::new();
    let mut i: usize = 0;
    assert(all.take(0) =~= Seq::<DescriptorFileView>::empty());
    assert(descriptors_view(descriptors@) =~= Seq::<DescriptorView>::empty());
    while i < files.len()
        invariant
            i <= files.len(),
            all == files_view(files@),
            descriptors_view(descriptors@) == decoded(all.take(i as int)),
        decreases files.len() - i,
    {
        let ghost before = descriptors_view(descriptors@);
        proof {
            assert(all.take(i + 1).drop_last() =~= all.take(i as int));
            assert(all.take(i + 1).last() == files[i as int]@);
        }
        match read_descriptor(files[i].path.as_str(), files[i].contents.as_str()) {
            Some(d) => {
                let ghost dv = d@;
                descriptors.push(d);
                assert(descriptors_view(descriptors@) =~= before.push(dv));
            },
            None => {},
        }
        i = i + 1;
    }
    assert(all.take(files.len() as int) =~= all);
    descriptors
}

/// Builds the catalog from the descriptor files that were found, in the
/// order in which they were found, and from the configuration.
pub fn discover_apps(config: &Config, files: &Vec<DescriptorFile>) -> (listing: Vec<App>)
    ensures
        apps_view(listing@) == catalog(decoded(files_view(files@)), config@.apps),
        is_sorted(apps_view(listing@), catalog_order(config@.apps.favorites)),
        forall|i: int| 0 <= i < listing.len() ==> is_launchable(#[trigger] listing[i]@),
{
    let descriptors = read_descriptors(files);
    build_catalog(&descriptors, &config.apps)
}

} // verus!
