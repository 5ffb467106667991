//! The configuration as the editor holds it, and the editing rules of the
//! provider and model editor.
use vstd::prelude::*;
use vstd::string::*;

use crate::number::{decimal, decimal_text, decimal_text_usize, digit_value, law_parse_decimal, lemma_decimal_injective, lemma_decimal_reads_back, parse_u64, parsed_u64};
use crate::order::text_lt;
use crate::strmap::{lemma_views_insert, lemma_views_remove, StrMap};
use crate::text::{after_last, blank, is_blank, lowercase, occurs, occurs_in, tail_after, texts, to_lower, trim, trimmed};

verus! {

/// What the editor knows of one model of a provider.
#[derive(Clone, Debug)]
pub struct ModelInfo {
    /// Its display name, where it has one.
    pub name: Option<String>,
}

impl View for ModelInfo {
    type V = Option<Seq<char>>;

    open spec fn view(&self) -> Option<Seq<char>> {
        match self.name {
            Some(n) => Some(n@),
            None => None,
        }
    }
}

/// One provider of the configuration.
#[derive(Clone, Debug)]
pub struct Provider {
    /// The npm package that implements it.
    pub npm: String,
    /// Its display name.
    pub name: String,
    /// Its options, such as `baseURL` and `apiKey`.
    pub options: StrMap<String>,
    /// Its models, by model id.
    pub models: StrMap<ModelInfo>,
}

/// A provider, seen as plain values.
pub struct ProviderView {
    pub npm: Seq<char>,
    pub name: Seq<char>,
    pub options: Map<Seq<char>, Seq<char>>,
    pub models: Map<Seq<char>, Option<Seq<char>>>,
}

impl View for Provider {
    type V = ProviderView;

    open spec fn view(&self) -> ProviderView {
        ProviderView {
            npm: self.npm@,
            name: self.name@,
            options: self.options.views(),
            models: self.models.views(),
        }
    }
}

/// The part of the configuration that the editor edits: the providers by id.
#[derive(Clone, Debug)]
pub struct Config {
    pub provider: StrMap<Provider>,
}

impl View for Config {
    type V = Map<Seq<char>, ProviderView>;

    open spec fn view(&self) -> Map<Seq<char>, ProviderView> {
        self.provider.views()
    }
}

/// The text `provider-` followed by the decimal text of `n`.
pub open spec fn provider_id(n: nat) -> Seq<char> {
    seq!['p', 'r', 'o', 'v', 'i', 'd', 'e', 'r', '-'] + decimal(n)
}

/// The npm package of a provider that the editor adds.
pub open spec fn compatible_npm() -> Seq<char> {
    seq!['@', 'a', 'i', '-', 's', 'd', 'k', '/', 'o', 'p', 'e', 'n', 'a', 'i', '-', 'c', 'o', 'm', 'p', 'a', 't', 'i', 'b', 'l', 'e']
}

/// The display name of a provider that the editor adds.
pub open spec fn new_provider_name() -> Seq<char> {
    seq!['N', 'e', 'w', ' ', 'P', 'r', 'o', 'v', 'i', 'd', 'e', 'r']
}

/// A provider as the editor adds it: OpenAI-compatible, named "New Provider",
/// with no options and no models.
pub open spec fn added_provider() -> ProviderView {
    ProviderView {
        npm: compatible_npm(),
        name: new_provider_name(),
        options: Map::empty(),
        models: Map::empty(),
    }
}

proof fn lemma_provider_id_injective(a: nat, b: nat)
    requires
        provider_id(a) == provider_id(b),
    ensures
        a == b,
{
    assert(provider_id(a).skip(9) =~= decimal(a));
    assert(provider_id(b).skip(9) =~= decimal(b));
    lemma_decimal_injective(a, b);
}

impl ModelInfo {
    /// A model with no display name.
    pub fn unnamed() -> (m: ModelInfo)
        ensures
            m@ == None::<Seq<char>>,
    {
        ModelInfo { name: None }
    }
}

impl Provider {
    /// A provider with empty texts, no options and no models.
    pub fn empty() -> (p: Provider)
        ensures
            p@ == (ProviderView {
                npm: Seq::empty(),
                name: Seq::empty(),
                options: Map::empty(),
                models: Map::empty(),
            }),
    {
        let p = Provider {
            npm: String::new(),
            name: String::new(),
            options: StrMap::new(),
            models: StrMap::new(),
        };
        assert(p.options.views() =~= Map::empty());
        assert(p.models.views() =~= Map::empty());
        p
    }
}

impl Config {
    /// A configuration with no provider.
    pub fn new() -> (c: Config)
        ensures
            c@ == Map::<Seq<char>, ProviderView>::empty(),
    {
        let c = Config { provider: StrMap::new() };
        assert(c@ =~= Map::<Seq<char>, ProviderView>::empty());
        c
    }

    /// The provider that comes first in id order, which the editor selects
    /// when nothing else is selected.
    pub fn first_provider(&self) -> (id: Option<String>)
        ensures
            id is None <==> self@.dom().is_empty(),
            id matches Some(k) ==> self@.dom().contains(k@) && forall|other: Seq<char>|
                #![trigger self@.dom().contains(other)]
                self@.dom().contains(other) && other != k@ ==> text_lt(k@, other),
    {
        self.provider.first_key()
    }

    /// Adds a new OpenAI-compatible provider under the first free id
    /// `provider-N`, counting from the number of providers, and gives back its id.
    pub fn add_provider(&mut self) -> (id: String)
        requires
            old(self)@.len() <= usize::MAX / 2,
        ensures
            exists|n: nat|
                n >= old(self)@.len() && id@ == provider_id(n) && !old(self)@.dom().contains(provider_id(n))
                    && forall|j: nat| old(self)@.len() <= j < n ==> old(self)@.dom().contains(#[trigger] provider_id(j)),
            final(self)@ == old(self)@.insert(id@, added_provider()),
    {
        let start = self.provider.len();
        let ghost dom = self@.dom();
        proof {
            self.provider.law_key_list();
            assert(dom =~= self.provider@.dom());
            assert(dom =~= self.provider.key_list().to_set());
            assert(dom.finite());
            assert(dom.len() == start);
        }
        let mut n = start;
        let mut id = provider_text(n);
        while self.provider.contains_key(&id)
            invariant
                self@.dom() == dom,
                dom.finite(),
                dom.len() == start,
                start <= usize::MAX / 2,
                start <= n <= 2 * start,
                id@ == provider_id(n as nat),
                forall|j: nat| start <= j < n ==> dom.contains(#[trigger] provider_id(j)),
            decreases 2 * start - n,
        {
            proof {
                let ids = Seq::new((n + 1 - start) as nat, |i: int| provider_id((start + i) as nat));
                assert forall|a: int, b: int| 0 <= a < ids.len() && 0 <= b < ids.len() && a != b implies ids[a] != ids[b] by {
                    if ids[a] == ids[b] {
                        lemma_provider_id_injective((start + a) as nat, (start + b) as nat);
                    }
                }
                assert(ids.no_duplicates());
                ids.unique_seq_to_set();
                assert forall|x: Seq<char>| ids.to_set().contains(x) implies dom.contains(x) by {
                    let i = choose|i: int| 0 <= i < ids.len() && ids[i] == x;
                    if start + i < n {
                        assert(dom.contains(provider_id((start + i) as nat)));
                    }
                }
                vstd::set_lib::lemma_len_subset(ids.to_set(), dom);
            }
            n = n + 1;
            id = provider_text(n);
        }
        let mut p = Provider::empty();
        p.npm = String::from_str("@ai-sdk/openai-compatible");
        p.name = String::from_str("New Provider");
        proof {
            reveal_strlit("@ai-sdk/openai-compatible");
            reveal_strlit("New Provider");
            assert(p.npm@ =~= compatible_npm());
            assert(p.name@ =~= new_provider_name());
            assert(p@ == added_provider());
        }
        let ghost before = self.provider@;
        let _ = self.provider.insert(id.clone(), p);
        proof {
            lemma_views_insert(before, id@, p);
        }
        id
    }
}

/// The sidebar shows provider `id` named `name` for the lowercased search
/// text `q`: `q` is empty or occurs in the lowercased id or name.
pub open spec fn shown(q: Seq<char>, id: Seq<char>, name: Seq<char>) -> bool {
    q.len() == 0 || occurs_in(q, lowercase(id)) || occurs_in(q, lowercase(name))
}

/// The ids among `ids` that the sidebar lists for the lowercased search
/// text `q`, in their order.
pub open spec fn listed(cfg: Map<Seq<char>, ProviderView>, ids: Seq<Seq<char>>, q: Seq<char>) -> Seq<Seq<char>> {
    ids.filter(|x: Seq<char>| shown(q, x, cfg[x].name))
}

/// The first provider id of a configuration, where it has one.
pub open spec fn least_id(m: Map<Seq<char>, ProviderView>) -> Option<Seq<char>> {
    if m.dom().is_empty() {
        None
    } else {
        Some(choose|k: Seq<char>| m.dom().contains(k) && forall|o: Seq<char>|
            #![trigger m.dom().contains(o)] m.dom().contains(o) && o != k ==> text_lt(k, o))
    }
}

impl Config {
    /// The ids of the providers that the sidebar lists for the search text
    /// `search`, in id order.
    pub fn visible_providers(&self, search: &String) -> (ids: Vec<String>)
        ensures
            texts(ids@) == self.provider.key_list().filter(
                |k: Seq<char>| shown(lowercase(search@), k, self@[k].name),
            ),
            texts(ids@) == listed(self@, self.provider.key_list(), lowercase(search@)),
    {
        let q = to_lower(search);
        let keys = self.provider.keys();
        let n = keys.len();
        let ghost pred = |k: Seq<char>| shown(lowercase(search@), k, self@[k].name);
        let mut ids: Vec<String> = Vec::new();
        let mut i: usize = 0;
        proof {
            self.provider.law_key_list();
        }
        while i < n
            invariant
                n == keys@.len(),
                texts(keys@) == self.provider.key_list(),
                i <= n,
                q@ == lowercase(search@),
                pred == (|k: Seq<char>| shown(lowercase(search@), k, self@[k].name)),
                forall|k: Seq<char>| #[trigger] self.provider@.dom().contains(k) <==> self.provider.key_list().contains(k),
                texts(ids@) == self.provider.key_list().take(i as int).filter(pred),
            decreases n - i,
        {
            let k = &keys[i];
            proof {
                assert(texts(keys@)[i as int] == k@);
                assert(self.provider.key_list().contains(k@));
            }
            let p = self.provider.get(k).unwrap();
            let show = q.as_str().is_empty() || {
                let lk = to_lower(k);
                occurs(&q, &lk) || {
                    let ln = to_lower(&p.name);
                    occurs(&q, &ln)
                }
            };
            let ghost prev = ids@;
            if show {
                ids.push(k.clone());
            }
            proof {
                let kl = self.provider.key_list();
                assert(kl.take(i + 1).drop_last() =~= kl.take(i as int));
                assert(kl.take(i + 1).last() == k@);
                reveal_with_fuel(Seq::<_>::filter, 1);
                assert(self@[k@].name == p.name@);
                assert(pred(k@) == show);
                if show {
                    assert(texts(ids@) =~= texts(prev).push(k@));
                } else {
                    assert(texts(ids@) =~= texts(prev));
                }
            }
            i = i + 1;
        }
        proof {
            assert(self.provider.key_list().take(n as int) =~= self.provider.key_list());
        }
        ids
    }

    /// Deletes provider `id` and gives back the provider that is selected after it:
    /// the first one in id order, if any is left.
    pub fn delete_provider(&mut self, id: &String) -> (selected: Option<String>)
        ensures
            final(self)@ == old(self)@.remove(id@),
            selected matches Some(k) ==> Some(k@) == least_id(final(self)@),
            selected is None <==> final(self)@.dom().is_empty(),
    {
        let ghost before = self.provider@;
        let _ = self.provider.remove(id);
        proof {
            lemma_views_remove(before, id@);
        }
        let first = self.first_provider();
        proof {
            if first is Some {
                lemma_least_id_unique(self@, first->0@);
            }
        }
        first
    }
}

/// The id under which an edited provider is kept: its pending rename, if any.
pub open spec fn rename_target(renames: Map<Seq<char>, Seq<char>>, id: Seq<char>) -> Seq<char> {
    if renames.dom().contains(id) {
        renames[id]
    } else {
        id
    }
}

impl Config {
    /// Puts the edited provider `edited`, shown under `id`, back into the
    /// configuration. Where `id` has a pending rename to a text that is not
    /// blank, the provider moves to the new id (replacing any provider there),
    /// the rename is done and the new id is given back to be selected. Where
    /// the rename is blank, nothing changes and the edits are dropped.
    pub fn commit_provider_edit(&mut self, renames: &mut StrMap<String>, id: &String, edited: Provider) -> (selected: Option<String>)
        ensures
            is_blank(rename_target(old(renames).views(), id@)) ==> {
                &&& final(self)@ == old(self)@
                &&& final(renames).views() == old(renames).views()
                &&& selected is None
            },
            !is_blank(rename_target(old(renames).views(), id@)) && rename_target(old(renames).views(), id@) != id@ ==> {
                &&& final(self)@ == old(self)@.remove(id@).insert(rename_target(old(renames).views(), id@), edited@)
                &&& final(renames).views() == old(renames).views().remove(id@)
                &&& selected matches Some(k) && k@ == rename_target(old(renames).views(), id@)
            },
            !is_blank(rename_target(old(renames).views(), id@)) && rename_target(old(renames).views(), id@) == id@ ==> {
                &&& final(self)@ == old(self)@.insert(id@, edited@)
                &&& final(renames).views() == old(renames).views()
                &&& selected is None
            },
    {
        let target: String = match renames.get(id) {
            Some(t) => t.clone(),
            None => id.clone(),
        };
        proof {
            assert(target@ == rename_target(renames.views(), id@));
        }
        if blank(&target) {
            return None;
        }
        if target != *id {
            let ghost before = self.provider@;
            let _ = self.provider.remove(id);
            let ghost mid = self.provider@;
            let _ = self.provider.insert(target.clone(), edited);
            let ghost rbefore = renames@;
            let _ = renames.remove(id);
            proof {
                lemma_views_remove(before, id@);
                lemma_views_insert(mid, target@, edited);
                lemma_views_remove(rbefore, id@);
            }
            Some(target)
        } else {
            let ghost before = self.provider@;
            let _ = self.provider.insert(id.clone(), edited);
            proof {
                lemma_views_insert(before, id@, edited);
            }
            None
        }
    }

    /// The selection after a reload: kept where there is one, else the first provider.
    pub fn selection_after_reload(&self, selected: Option<String>) -> (res: Option<String>)
        ensures
            selected is Some ==> res == selected,
            selected is None ==> (res matches Some(k) ==> Some(k@) == least_id(self@)),
            selected is None ==> (res is None <==> self@.dom().is_empty()),
    {
        match selected {
            Some(s) => Some(s),
            None => {
                let first = self.first_provider();
                proof {
                    if first is Some {
                        lemma_least_id_unique(self@, first->0@);
                    }
                }
                first
            },
        }
    }
}

/// The text `model-` followed by the decimal text of `n`.
pub open spec fn model_id(n: nat) -> Seq<char> {
    seq!['m', 'o', 'd', 'e', 'l', '-'] + decimal(n)
}

/// A display name as a text, empty where there is none.
pub open spec fn name_text(name: Option<Seq<char>>) -> Seq<char> {
    match name {
        Some(t) => t,
        None => Seq::empty(),
    }
}

/// The display name that an edited name text gives: none where it is
/// blank, else the text without surrounding white space.
pub open spec fn edited_name(t: Seq<char>) -> Option<Seq<char>> {
    if is_blank(t) {
        None
    } else {
        Some(trim(t))
    }
}

/// The models of a provider after the row of model `key` was edited to
/// show id `new_key` and name `new_name`.
pub open spec fn models_after_edit(
    models: Map<Seq<char>, Option<Seq<char>>>,
    key: Seq<char>,
    new_key: Seq<char>,
    new_name: Seq<char>,
) -> Map<Seq<char>, Option<Seq<char>>> {
    if new_key != key {
        if models.dom().contains(key) {
            models.remove(key).insert(new_key, models[key])
        } else {
            models
        }
    } else if models.dom().contains(key) && new_name != name_text(models[key]) {
        models.insert(key, edited_name(new_name))
    } else {
        models
    }
}

/// The number that a model id ends with, after its last `-`, if that part
/// reads as a `u64`.
pub open spec fn model_number(id: Seq<char>) -> Option<u64> {
    parsed_u64(after_last(id, '-'))
}

/// The text `baseURL`.
pub open spec fn base_url_key() -> Seq<char> {
    seq!['b', 'a', 's', 'e', 'U', 'R', 'L']
}

/// The text `apiKey`.
pub open spec fn api_key_key() -> Seq<char> {
    seq!['a', 'p', 'i', 'K', 'e', 'y']
}

/// The options with `key` present: kept where it is, else set to the empty text.
pub open spec fn with_option(options: Map<Seq<char>, Seq<char>>, key: Seq<char>) -> Map<Seq<char>, Seq<char>> {
    if options.dom().contains(key) {
        options
    } else {
        options.insert(key, Seq::empty())
    }
}

/// An option's text, empty where the option is absent.
pub open spec fn option_text(options: Map<Seq<char>, Seq<char>>, key: Seq<char>) -> Seq<char> {
    if options.dom().contains(key) {
        options[key]
    } else {
        Seq::empty()
    }
}

fn base_url_text() -> (s: String)
    ensures
        s@ == base_url_key(),
{
    let s = String::from_str("baseURL");
    proof {
        reveal_strlit("baseURL");
        assert(s@ =~= base_url_key());
    }
    s
}

fn api_key_text() -> (s: String)
    ensures
        s@ == api_key_key(),
{
    let s = String::from_str("apiKey");
    proof {
        reveal_strlit("apiKey");
        assert(s@ =~= api_key_key());
    }
    s
}

impl Provider {
    /// Adds a model with no name under `model-C`, where `C` is the counter
    /// after it was incremented (replacing a model of that id).
    pub fn add_model(&mut self, counter: &mut u64)
        requires
            *old(counter) < u64::MAX,
        ensures
            *final(counter) == *old(counter) + 1,
            final(self)@.models == old(self)@.models.insert(model_id(*final(counter) as nat), None),
            final(self)@.npm == old(self)@.npm,
            final(self)@.name == old(self)@.name,
            final(self)@.options == old(self)@.options,
    {
        *counter = *counter + 1;
        let mut id = String::from_str("model-");
        proof {
            reveal_strlit("model-");
        }
        let d = decimal_text(*counter);
        id.append(d.as_str());
        proof {
            assert(id@ =~= model_id(*counter as nat));
        }
        let ghost before = self.models@;
        let m = ModelInfo::unnamed();
        let _ = self.models.insert(id, m);
        proof {
            lemma_views_insert(before, model_id(*counter as nat), m);
        }
    }

    /// Applies the edits of the row of model `key`: a changed id moves the
    /// model to `new_key` (replacing any model there); else a changed name
    /// text sets the display name, trimmed, or none where it is blank.
    pub fn edit_model(&mut self, key: &String, new_key: String, new_name: &String)
        ensures
            final(self)@.models == models_after_edit(old(self)@.models, key@, new_key@, new_name@),
            final(self)@.npm == old(self)@.npm,
            final(self)@.name == old(self)@.name,
            final(self)@.options == old(self)@.options,
    {
        let ghost before = self.models@;
        if new_key != *key {
            match self.models.remove(key) {
                Some(info) => {
                    let ghost mid = self.models@;
                    let _ = self.models.insert(new_key, info);
                    proof {
                        lemma_views_remove(before, key@);
                        lemma_views_insert(mid, new_key@, info);
                    }
                },
                None => {
                    proof {
                        assert(before.remove(key@) =~= before);
                    }
                },
            }
        } else {
            let current: Option<Option<String>> = match self.models.get(key) {
                Some(info) => Some(
                    match &info.name {
                        Some(t) => Some(t.clone()),
                        None => None,
                    },
                ),
                None => None,
            };
            if let Some(cur) = current {
                let cur_text = match cur {
                    Some(t) => t,
                    None => String::new(),
                };
                proof {
                    assert(cur_text@ == name_text(self.models.views()[key@]));
                }
                if *new_name != cur_text {
                    let name = if blank(new_name) {
                        None
                    } else {
                        Some(trimmed(new_name))
                    };
                    let info = ModelInfo { name };
                    proof {
                        crate::text::lemma_blank_iff_trim_empty(new_name@);
                        assert(info@ == edited_name(new_name@));
                    }
                    let _ = self.models.insert(key.clone(), info);
                    proof {
                        lemma_views_insert(before, key@, info);
                    }
                }
            }
        }
    }

    /// Removes model `key`.
    pub fn remove_model(&mut self, key: &String)
        ensures
            final(self)@.models == old(self)@.models.remove(key@),
            final(self)@.npm == old(self)@.npm,
            final(self)@.name == old(self)@.name,
            final(self)@.options == old(self)@.options,
    {
        let ghost before = self.models@;
        let _ = self.models.remove(key);
        proof {
            lemma_views_remove(before, key@);
        }
    }

    /// Makes sure that the `baseURL` and `apiKey` options exist, empty where
    /// they were absent, as the provider form does when it shows them.
    pub fn ensure_connection_options(&mut self)
        ensures
            final(self)@.options == with_option(with_option(old(self)@.options, base_url_key()), api_key_key()),
            final(self)@.models == old(self)@.models,
            final(self)@.npm == old(self)@.npm,
            final(self)@.name == old(self)@.name,
    {
        let b = base_url_text();
        if !self.options.contains_key(&b) {
            let ghost before = self.options@;
            let e = String::new();
            let _ = self.options.insert(b, e);
            proof {
                lemma_views_insert(before, base_url_key(), e);
            }
        }
        let k = api_key_text();
        if !self.options.contains_key(&k) {
            let ghost before = self.options@;
            let e = String::new();
            let _ = self.options.insert(k, e);
            proof {
                lemma_views_insert(before, api_key_key(), e);
            }
        }
    }

    /// Whether models can be fetched: the `baseURL` option exists and is not blank.
    pub fn can_fetch(&self) -> (res: bool)
        ensures
            res == (self@.options.dom().contains(base_url_key()) && !is_blank(self@.options[base_url_key()])),
    {
        let b = base_url_text();
        match self.options.get(&b) {
            Some(url) => !blank(url),
            None => false,
        }
    }

    /// The base URL and the API key to fetch models with, each empty where absent.
    pub fn connection(&self) -> (res: (String, String))
        ensures
            res.0@ == option_text(self@.options, base_url_key()),
            res.1@ == option_text(self@.options, api_key_key()),
    {
        let b = base_url_text();
        let k = api_key_text();
        let url = match self.options.get(&b) {
            Some(u) => u.clone(),
            None => String::new(),
        };
        let key = match self.options.get(&k) {
            Some(v) => v.clone(),
            None => String::new(),
        };
        (url, key)
    }
}

impl Config {
    /// The model counter that the editor starts from: the greatest number
    /// that ends a model id of any provider (after its last `-`), or 0.
    pub fn initial_model_counter(&self) -> (c: u64)
        ensures
            forall|p: Seq<char>, m: Seq<char>|
                #![trigger self@[p].models.dom().contains(m)]
                self@.dom().contains(p) && self@[p].models.dom().contains(m) && model_number(m) is Some
                    ==> model_number(m)->0 <= c,
            c == 0 || exists|p: Seq<char>, m: Seq<char>|
                #![trigger self@[p].models.dom().contains(m)]
                self@.dom().contains(p) && self@[p].models.dom().contains(m) && model_number(m) == Some(c),
    {
        let mut c: u64 = 0;
        let np = self.provider.len();
        let mut i: usize = 0;
        proof {
            self.provider.law_key_list();
        }
        while i < np
            invariant
                np == self.provider.key_list().len(),
                i <= np,
                forall|k: Seq<char>| #[trigger] self.provider@.dom().contains(k) <==> self.provider.key_list().contains(k),
                forall|a: int, m: Seq<char>|
                    #![trigger self@[self.provider.key_list()[a]].models.dom().contains(m)]
                    0 <= a < i && self@[self.provider.key_list()[a]].models.dom().contains(m) && model_number(m) is Some
                        ==> model_number(m)->0 <= c,
                c == 0 || exists|p: Seq<char>, m: Seq<char>|
                    #![trigger self@[p].models.dom().contains(m)]
                    self@.dom().contains(p) && self@[p].models.dom().contains(m) && model_number(m) == Some(c),
            decreases np - i,
        {
            let p = self.provider.value_at(i);
            let ghost pk = self.provider.key_list()[i as int];
            proof {
                assert(self.provider.key_list().contains(pk));
                assert(self@[pk] == p@);
            }
            let nm = p.models.len();
            proof {
                p.models.law_key_list();
            }
            let mut j: usize = 0;
            while j < nm
                invariant
                    np == self.provider.key_list().len(),
                    i < np,
                    pk == self.provider.key_list()[i as int],
                    self@.dom().contains(pk),
                    self@[pk] == p@,
                    nm == p.models.key_list().len(),
                    j <= nm,
                    forall|k: Seq<char>| #[trigger] p.models@.dom().contains(k) <==> p.models.key_list().contains(k),
                    forall|k: Seq<char>| #[trigger] self.provider@.dom().contains(k) <==> self.provider.key_list().contains(k),
                    forall|a: int, m: Seq<char>|
                        #![trigger self@[self.provider.key_list()[a]].models.dom().contains(m)]
                        0 <= a < i && self@[self.provider.key_list()[a]].models.dom().contains(m) && model_number(m) is Some
                            ==> model_number(m)->0 <= c,
                    forall|b: int| #![trigger p.models.key_list()[b]]
                        0 <= b < j && model_number(p.models.key_list()[b]) is Some
                            ==> model_number(p.models.key_list()[b])->0 <= c,
                    c == 0 || exists|p: Seq<char>, m: Seq<char>|
                        #![trigger self@[p].models.dom().contains(m)]
                        self@.dom().contains(p) && self@[p].models.dom().contains(m) && model_number(m) == Some(c),
                decreases nm - j,
            {
                let k = p.models.key_at(j);
                let tail = tail_after(k, '-');
                if let Some(v) = parse_u64(&tail) {
                    if v > c {
                        c = v;
                        proof {
                            assert(p@.models.dom().contains(k@));
                            assert(self@[pk].models.dom().contains(k@));
                        }
                    }
                }
                j = j + 1;
            }
            proof {
                assert forall|a: int, m: Seq<char>|
                    #![trigger self@[self.provider.key_list()[a]].models.dom().contains(m)]
                    0 <= a < i + 1 && self@[self.provider.key_list()[a]].models.dom().contains(m) && model_number(m) is Some
                        implies model_number(m)->0 <= c by {
                    if a == i {
                        assert(p.models.views().dom().contains(m));
                        assert(p.models@.dom().contains(m));
                        let b = choose|b: int| 0 <= b < p.models.key_list().len() && p.models.key_list()[b] == m;
                        assert(model_number(p.models.key_list()[b]) is Some);
                    }
                }
            }
            i = i + 1;
        }
        proof {
            assert forall|pp: Seq<char>, m: Seq<char>|
                #![trigger self@[pp].models.dom().contains(m)]
                self@.dom().contains(pp) && self@[pp].models.dom().contains(m) && model_number(m) is Some
                    implies model_number(m)->0 <= c by {
                assert(self.provider@.dom().contains(pp));
                let a = choose|a: int| 0 <= a < self.provider.key_list().len() && self.provider.key_list()[a] == pp;
                assert(self@[self.provider.key_list()[a]].models.dom().contains(m));
            }
        }
        c
    }
}

/// The display name given to a fetched model: its id after the last `/`.
pub open spec fn fetched_name(id: Seq<char>) -> Option<Seq<char>> {
    Some(after_last(id, '/'))
}

/// The models after the fetched ids `picked` were added: each picked id
/// that was not a model yet comes in, named by [`fetched_name`]; the models
/// that were there stay as they were.
pub open spec fn with_fetched(
    models: Map<Seq<char>, Option<Seq<char>>>,
    picked: Seq<Seq<char>>,
) -> Map<Seq<char>, Option<Seq<char>>> {
    Map::new(
        |k: Seq<char>| models.dom().contains(k) || picked.contains(k),
        |k: Seq<char>| if models.dom().contains(k) { models[k] } else { fetched_name(k) },
    )
}

/// The provider `id` has model `m`.
pub open spec fn has_model(c: Map<Seq<char>, ProviderView>, id: Seq<char>, m: Seq<char>) -> bool {
    c.dom().contains(id) && c[id].models.dom().contains(m)
}

/// The fetched ids that the picker offers: those provider `id` does not
/// have yet, in fetched order.
pub open spec fn offered(c: Map<Seq<char>, ProviderView>, id: Seq<char>, fetched: Seq<Seq<char>>) -> Seq<Seq<char>> {
    fetched.filter(|m: Seq<char>| !has_model(c, id, m))
}

impl Config {
    /// The fetched model ids that provider `id` does not have yet, in the
    /// order in which they were fetched.
    pub fn available_models(&self, id: &String, fetched: &Vec<String>) -> (avail: Vec<String>)
        ensures
            texts(avail@) == offered(self@, id@, texts(fetched@)),
    {
        let prov = self.provider.get(id);
        let n = fetched.len();
        let ghost pred = |m: Seq<char>| !has_model(self@, id@, m);
        let mut avail: Vec<String> = Vec::new();
        let mut i: usize = 0;
        while i < n
            invariant
                n == fetched@.len(),
                i <= n,
                pred == (|m: Seq<char>| !has_model(self@, id@, m)),
                prov matches Some(p) ==> self@.dom().contains(id@) && self@[id@] == p@,
                prov is None ==> !self@.dom().contains(id@),
                texts(avail@) == texts(fetched@).take(i as int).filter(pred),
            decreases n - i,
        {
            let m = &fetched[i];
            let present = match prov {
                Some(p) => p.models.contains_key(m),
                None => false,
            };
            let ghost prev = avail@;
            if !present {
                avail.push(m.clone());
            }
            proof {
                let t = texts(fetched@);
                assert(t.take(i + 1).drop_last() =~= t.take(i as int));
                assert(t.take(i + 1).last() == m@);
                reveal_with_fuel(Seq::<_>::filter, 1);
                if let Some(p) = prov {
                    assert(p.models.views().dom() =~= p.models@.dom());
                }
                assert(pred(m@) == !present);
                if !present {
                    assert(texts(avail@) =~= texts(prev).push(m@));
                } else {
                    assert(texts(avail@) =~= texts(prev));
                }
            }
            i = i + 1;
        }
        proof {
            assert(texts(fetched@).take(n as int) =~= texts(fetched@));
        }
        avail
    }

    /// Adds the picked fetched models to provider `id`: each one it does not
    /// have yet, named by the part of its id after the last `/`. Nothing
    /// changes where there is no such provider. Gives back how many ids were picked.
    pub fn add_fetched_models(&mut self, id: &String, picked: &Vec<String>) -> (count: usize)
        ensures
            count == picked@.len(),
            old(self)@.dom().contains(id@) ==> final(self)@ == old(self)@.insert(
                id@,
                ProviderView { models: with_fetched(old(self)@[id@].models, texts(picked@)), ..old(self)@[id@] },
            ),
            !old(self)@.dom().contains(id@) ==> final(self)@ == old(self)@,
    {
        let ghost before = self.provider@;
        let taken = self.provider.remove(id);
        match taken {
            None => {
                proof {
                    assert(before.remove(id@) =~= before);
                }
                picked.len()
            },
            Some(mut p) => {
                let ghost orig = p@;
                let n = picked.len();
                let mut i: usize = 0;
                proof {
                    assert(with_fetched(orig.models, texts(picked@).take(0)) =~= orig.models);
                }
                while i < n
                    invariant
                        n == picked@.len(),
                        i <= n,
                        p@.npm == orig.npm,
                        p@.name == orig.name,
                        p@.options == orig.options,
                        p@.models == with_fetched(orig.models, texts(picked@).take(i as int)),
                    decreases n - i,
                {
                    let m = &picked[i];
                    let ghost prev = p@.models;
                    if !p.models.contains_key(m) {
                        let name = tail_after(m, '/');
                        let info = ModelInfo { name: Some(name) };
                        let ghost mb = p.models@;
                        let _ = p.models.insert(m.clone(), info);
                        proof {
                            lemma_views_insert(mb, m@, info);
                        }
                    }
                    proof {
                        let t = texts(picked@);
                        assert(t[i as int] == m@);
                        assert(p.models.views().dom() == p.models@.dom());
                        assert(p@.models =~= with_fetched(orig.models, t.take(i + 1))) by {
                            assert forall|k: Seq<char>| #![auto] t.take(i + 1).contains(k) <==> (t.take(i as int).contains(k) || k == m@) by {
                                if t.take(i + 1).contains(k) {
                                    let j = choose|j: int| 0 <= j < t.take(i + 1).len() && #[trigger] t.take(i + 1)[j] == k;
                                    if j < i {
                                        assert(t.take(i as int)[j] == k);
                                    }
                                }
                                if t.take(i as int).contains(k) {
                                    let j = choose|j: int| 0 <= j < t.take(i as int).len() && #[trigger] t.take(i as int)[j] == k;
                                    assert(t.take(i + 1)[j] == k);
                                }
                                if k == m@ {
                                    assert(t.take(i + 1)[i as int] == k);
                                }
                            }
                            let a = with_fetched(orig.models, t.take(i as int));
                            let b = with_fetched(orig.models, t.take(i + 1));
                            assert(prev == a);
                            assert forall|k: Seq<char>| #![auto] p@.models.dom().contains(k) <==> b.dom().contains(k) by {
                                assert(a.dom().contains(k) == (orig.models.dom().contains(k) || t.take(i as int).contains(k)));
                                assert(b.dom().contains(k) == (orig.models.dom().contains(k) || t.take(i + 1).contains(k)));
                            }
                            assert forall|k: Seq<char>| #![auto] p@.models.dom().contains(k) implies p@.models[k] == b[k] by {
                                assert(a.dom().contains(k) == (orig.models.dom().contains(k) || t.take(i as int).contains(k)));
                                assert(b.dom().contains(k) == (orig.models.dom().contains(k) || t.take(i + 1).contains(k)));
                                if k != m@ || prev.dom().contains(k) {
                                    assert(p@.models[k] == prev[k]);
                                }
                            }
                        }
                    }
                    i = i + 1;
                }
                proof {
                    assert(texts(picked@).take(n as int) =~= texts(picked@));
                }
                let ghost mid = self.provider@;
                let _ = self.provider.insert(id.clone(), p);
                proof {
                    lemma_views_remove(before, id@);
                    lemma_views_insert(mid, id@, p);
                    assert(self@ =~= before.map_values(|x: Provider| x@).remove(id@).insert(id@, p@));
                    assert(self@ =~= before.map_values(|x: Provider| x@).insert(id@, p@));
                }
                n
            },
        }
    }
}

/// A model added with counter value `c` has id `model-c`, whose number is
/// `c` again: the counter that the editor starts from is never below the
/// counter of a model it added, so a new model id does not repeat one.
pub proof fn law_model_number_of_added(c: u64)
    ensures
        model_number(model_id(c as nat)) == Some(c),
{
    let prefix = seq!['m', 'o', 'd', 'e', 'l', '-'];
    lemma_decimal_reads_back(c as nat);
    let d = decimal(c as nat);
    assert forall|i: int| 0 <= i < d.len() implies d[i] != '-' by {
        assert(digit_value(d[i]) is Some);
    }
    crate::text::lemma_after_last_suffix(prefix, d, '-');
    assert(model_id(c as nat) == prefix + d);
    law_parse_decimal(c);
}

/// With a counter `c` that is at least the number of every model id (as
/// [`Config::initial_model_counter`] gives it), the next model that
/// [`Provider::add_model`] adds gets an id that no provider has yet.
pub proof fn law_next_model_id_is_fresh(cfg: Map<Seq<char>, ProviderView>, c: u64)
    requires
        c < u64::MAX,
        forall|p: Seq<char>, m: Seq<char>|
            #![trigger cfg[p].models.dom().contains(m)]
            cfg.dom().contains(p) && cfg[p].models.dom().contains(m) && model_number(m) is Some
                ==> model_number(m)->0 <= c,
    ensures
        forall|p: Seq<char>| #[trigger] cfg.dom().contains(p) ==> !cfg[p].models.dom().contains(model_id((c + 1) as nat)),
{
    law_model_number_of_added((c + 1) as u64);
    assert forall|p: Seq<char>| #[trigger] cfg.dom().contains(p) implies !cfg[p].models.dom().contains(model_id((c + 1) as nat)) by {
        if cfg[p].models.dom().contains(model_id((c + 1) as nat)) {
            assert(model_number(model_id((c + 1) as nat)) == Some((c + 1) as u64));
        }
    }
}

/// A provider renamed on commit is found under its new id, holding the
/// edited provider, and no longer under its old id.
pub proof fn law_rename_moves_provider(
    cfg: Map<Seq<char>, ProviderView>,
    id: Seq<char>,
    target: Seq<char>,
    edited: ProviderView,
)
    requires
        target != id,
    ensures
        cfg.remove(id).insert(target, edited).dom().contains(target),
        cfg.remove(id).insert(target, edited)[target] == edited,
        !cfg.remove(id).insert(target, edited).dom().contains(id),
{
}

/// A model whose id is edited keeps its display name under the new id,
/// and the old id is gone.
pub proof fn law_model_rename_keeps_name(
    models: Map<Seq<char>, Option<Seq<char>>>,
    key: Seq<char>,
    new_key: Seq<char>,
    new_name: Seq<char>,
)
    requires
        new_key != key,
        models.dom().contains(key),
    ensures
        models_after_edit(models, key, new_key, new_name).dom().contains(new_key),
        models_after_edit(models, key, new_key, new_name)[new_key] == models[key],
        !models_after_edit(models, key, new_key, new_name).dom().contains(key),
{
}

/// A display name edited to blank text clears the name; any other edit
/// keeps the text without its surrounding white space.
pub proof fn law_model_name_edit(
    models: Map<Seq<char>, Option<Seq<char>>>,
    key: Seq<char>,
    new_name: Seq<char>,
)
    requires
        models.dom().contains(key),
        new_name != name_text(models[key]),
    ensures
        is_blank(new_name) ==> models_after_edit(models, key, key, new_name)[key] == None::<Seq<char>>,
        !is_blank(new_name) ==> models_after_edit(models, key, key, new_name)[key] == Some(trim(new_name)),
{
}

/// Adding fetched models never changes a model that was there, and every
/// picked id is a model afterwards.
pub proof fn law_fetched_keeps_existing(models: Map<Seq<char>, Option<Seq<char>>>, picked: Seq<Seq<char>>)
    ensures
        forall|k: Seq<char>| #[trigger] models.dom().contains(k)
            ==> with_fetched(models, picked).dom().contains(k) && with_fetched(models, picked)[k] == models[k],
        forall|i: int| 0 <= i < picked.len() ==> with_fetched(models, picked).dom().contains(#[trigger] picked[i]),
{
    assert forall|i: int| 0 <= i < picked.len() implies with_fetched(models, picked).dom().contains(#[trigger] picked[i]) by {
        assert(picked.contains(picked[i]));
    }
}

/// A picked id `m` that was not a model yet comes in named by the part of
/// it after its last `/`; where it holds no `/`, by all of `m`.
pub proof fn law_fetched_model_named(
    models: Map<Seq<char>, Option<Seq<char>>>,
    picked: Seq<Seq<char>>,
    m: Seq<char>,
)
    requires
        picked.contains(m),
        !models.dom().contains(m),
    ensures
        with_fetched(models, picked).dom().contains(m),
        with_fetched(models, picked)[m] == Some(after_last(m, '/')),
        (forall|i: int| 0 <= i < m.len() ==> m[i] != '/') ==> with_fetched(models, picked)[m] == Some(m),
{
    if forall|i: int| 0 <= i < m.len() ==> m[i] != '/' {
        crate::text::law_after_last_without_sep(m, '/');
    }
}

/// A picked id `a/b`, where `b` holds no `/`, that was not a model yet
/// comes in named `b`.
pub proof fn law_fetched_model_named_after_slash(
    models: Map<Seq<char>, Option<Seq<char>>>,
    picked: Seq<Seq<char>>,
    a: Seq<char>,
    b: Seq<char>,
)
    requires
        picked.contains(a + seq!['/'] + b),
        !models.dom().contains(a + seq!['/'] + b),
        forall|i: int| 0 <= i < b.len() ==> b[i] != '/',
    ensures
        with_fetched(models, picked)[a + seq!['/'] + b] == Some(b),
{
    crate::text::law_after_last_of_joined(a, b, '/');
}

/// The picker offers no model that the provider already has, and offers
/// every fetched model that it does not have.
pub proof fn law_offered_models_are_new(cfg: Map<Seq<char>, ProviderView>, id: Seq<char>, fetched: Seq<Seq<char>>)
    ensures
        forall|m: Seq<char>| #[trigger] offered(cfg, id, fetched).contains(m)
            <==> fetched.contains(m) && !has_model(cfg, id, m),
{
    let pred = |x: Seq<char>| !has_model(cfg, id, x);
    broadcast use vstd::seq_lib::group_filter_ensures;
    assert forall|m: Seq<char>| #[trigger] fetched.filter(pred).contains(m) <==> fetched.contains(m) && pred(m) by {
        if fetched.filter(pred).contains(m) {
            fetched.lemma_filter_contains_rev(pred, m);
            let j = choose|j: int| 0 <= j < fetched.filter(pred).len() && fetched.filter(pred)[j] == m;
            assert(pred(fetched.filter(pred)[j]));
        }
        if fetched.contains(m) && pred(m) {
            let i = choose|i: int| 0 <= i < fetched.len() && fetched[i] == m;
            fetched.lemma_filter_contains(pred, i);
        }
    }
}

/// With an empty search text every provider is listed.
pub proof fn law_empty_search_lists_all(cfg: Map<Seq<char>, ProviderView>, ids: Seq<Seq<char>>, q: Seq<char>)
    requires
        q.len() == 0,
    ensures
        ids.filter(|k: Seq<char>| shown(q, k, cfg[k].name)) == ids,
    decreases ids.len(),
{
    reveal_with_fuel(Seq::<_>::filter, 1);
    if ids.len() > 0 {
        law_empty_search_lists_all(cfg, ids.drop_last(), q);
        assert(ids.drop_last().push(ids.last()) =~= ids);
    }
}

/// A provider whose lowercased id holds the lowercased search text is
/// shown whatever its name; so is one whose lowercased name holds it.
pub proof fn law_shown_by_id_or_name(q: Seq<char>, id: Seq<char>, name: Seq<char>)
    ensures
        occurs_in(q, lowercase(id)) ==> shown(q, id, name),
        occurs_in(q, lowercase(name)) ==> shown(q, id, name),
        q.len() > 0 && !occurs_in(q, lowercase(id)) && !occurs_in(q, lowercase(name)) ==> !shown(q, id, name),
{
}

/// A provider is listed for the lowercased search text `q` exactly when
/// it is a provider and `q` is empty, or occurs in its lowercased id, or in
/// its lowercased name.
pub proof fn law_listed_providers(cfg: Map<Seq<char>, ProviderView>, ids: Seq<Seq<char>>, q: Seq<char>)
    ensures
        forall|k: Seq<char>| #[trigger] listed(cfg, ids, q).contains(k)
            <==> ids.contains(k) && (q.len() == 0 || occurs_in(q, lowercase(k))
                || occurs_in(q, lowercase(cfg[k].name))),
{
    let pred = |x: Seq<char>| shown(q, x, cfg[x].name);
    broadcast use vstd::seq_lib::group_filter_ensures;
    assert forall|k: Seq<char>| #[trigger] ids.filter(pred).contains(k) <==> ids.contains(k) && pred(k) by {
        if ids.filter(pred).contains(k) {
            ids.lemma_filter_contains_rev(pred, k);
            let j = choose|j: int| 0 <= j < ids.filter(pred).len() && ids.filter(pred)[j] == k;
            assert(pred(ids.filter(pred)[j]));
        }
        if ids.contains(k) && pred(k) {
            let i = choose|i: int| 0 <= i < ids.len() && ids[i] == k;
            ids.lemma_filter_contains(pred, i);
        }
    }
}

/// A provider whose lowercased id is `a + q + b` is listed for the
/// lowercased search text `q`, whatever its name.
pub proof fn law_listed_when_id_holds_search(
    cfg: Map<Seq<char>, ProviderView>,
    ids: Seq<Seq<char>>,
    k: Seq<char>,
    a: Seq<char>,
    q: Seq<char>,
    b: Seq<char>,
)
    requires
        ids.contains(k),
        lowercase(k) == a + q + b,
    ensures
        listed(cfg, ids, q).contains(k),
{
    crate::text::law_occurs_in_middle(a, q, b);
    law_listed_providers(cfg, ids, q);
}

/// Only one key of a map comes before all the others.
pub proof fn lemma_least_id_unique(m: Map<Seq<char>, ProviderView>, k: Seq<char>)
    requires
        m.dom().contains(k),
        forall|o: Seq<char>| #![trigger m.dom().contains(o)] m.dom().contains(o) && o != k ==> text_lt(k, o),
    ensures
        least_id(m) == Some(k),
{
    let c = choose|c: Seq<char>| m.dom().contains(c) && forall|o: Seq<char>|
        #![trigger m.dom().contains(o)] m.dom().contains(o) && o != c ==> text_lt(c, o);
    if c != k {
        assert(text_lt(k, c));
        assert(text_lt(c, k));
        crate::order::lemma_text_lt_asymmetric(k, c);
    }
}

/// The text `provider-N`.
fn provider_text(n: usize) -> (s: String)
    ensures
        s@ == provider_id(n as nat),
{
    let mut s = String::from_str("provider-");
    proof {
        reveal_strlit("provider-");
    }
    let d = decimal_text_usize(n);
    s.append(d.as_str());
    proof {
        assert(s@ =~= provider_id(n as nat));
    }
    s
}

} // verus!
