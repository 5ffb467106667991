//! Fetching the model list of a provider: the request to send, what is read
//! from the answer, and the states of the model picker.
use vstd::prelude::*;
use vstd::string::*;

use crate::editor::{with_fetched, Config, ProviderView};
use crate::json::{field, get_field, json_reading, member, read_json, JsonValue};
use crate::strmap::StrMap;
use crate::text::{blank, is_blank, texts, trim_end_char, without_trailing};

verus! {

/// The text `/models`.
pub open spec fn models_path() -> Seq<char> {
    seq!['/', 'm', 'o', 'd', 'e', 'l', 's']
}

/// The address of the model list of a provider at `base`: `base` without
/// trailing slashes, then `/models`.
pub open spec fn models_address(base: Seq<char>) -> Seq<char> {
    trim_end_char(base, '/') + models_path()
}

/// The address of the model list of a provider at `base`.
pub fn models_url(base: &String) -> (url: String)
    ensures
        url@ == models_address(base@),
{
    let mut url = without_trailing(base, '/');
    url.append("/models");
    proof {
        reveal_strlit("/models");
        assert(url@ =~= models_address(base@));
    }
    url
}

/// Slashes at the end of the base URL do not change the address of its
/// model list.
pub proof fn law_models_address_ignores_trailing_slash(base: Seq<char>)
    ensures
        models_address(base.push('/')) == models_address(base),
{
    let b = base.push('/');
    assert(b.drop_last() =~= base);
    crate::text::lemma_trail_count_bound(base, '/');
    assert(crate::text::trail_count(b, '/') == 1 + crate::text::trail_count(base, '/'));
    assert(trim_end_char(b, '/') =~= trim_end_char(base, '/'));
}

/// The message with which a blank base URL is refused.
pub open spec fn empty_base_message() -> Seq<char> {
    seq!['b', 'a', 's', 'e', 'U', 'R', 'L', ' ', 'k', 'o', 's', 'o', 'n', 'g']
}

/// The address to fetch models from, refused with "baseURL kosong" where
/// the base URL is blank.
pub fn checked_models_url(base: &String) -> (res: Result<String, String>)
    ensures
        is_blank(base@) ==> (res matches Err(e) && e@ == empty_base_message()),
        !is_blank(base@) ==> (res matches Ok(url) && url@ == models_address(base@)),
{
    if blank(base) {
        let e = String::from_str("baseURL kosong");
        proof {
            reveal_strlit("baseURL kosong");
            assert(e@ =~= empty_base_message());
        }
        Err(e)
    } else {
        Ok(models_url(base))
    }
}

/// The text `Bearer `.
pub open spec fn bearer_prefix() -> Seq<char> {
    seq!['B', 'e', 'a', 'r', 'e', 'r', ' ']
}

/// The `Authorization` header to send with API key `key`: none where the
/// key is absent or empty, else `Bearer ` and the key.
pub fn authorization(key: &Option<String>) -> (header: Option<String>)
    ensures
        (key matches Some(k) && k@.len() > 0) ==> (header matches Some(h) && h@ == bearer_prefix() + key->0@),
        !(key matches Some(k) && k@.len() > 0) ==> header is None,
{
    match key {
        Some(k) => {
            if k.as_str().is_empty() {
                None
            } else {
                let mut h = String::from_str("Bearer ");
                proof {
                    reveal_strlit("Bearer ");
                }
                h.append(k.as_str());
                proof {
                    assert(h@ =~= bearer_prefix() + k@);
                }
                Some(h)
            }
        },
        None => None,
    }
}

/// The text `data`.
pub open spec fn data_key() -> Seq<char> {
    seq!['d', 'a', 't', 'a']
}

/// The text `models`.
pub open spec fn models_key() -> Seq<char> {
    seq!['m', 'o', 'd', 'e', 'l', 's']
}

/// The text `id`.
pub open spec fn id_key() -> Seq<char> {
    seq!['i', 'd']
}

/// The list of models in an answer: the answer itself where it is an
/// array, else its `data` array, else its `models` array.
pub open spec fn model_list(v: JsonValue) -> Option<Seq<JsonValue>> {
    match v {
        JsonValue::Array(a) => Some(a@),
        _ => match field(v, data_key()) {
            Some(JsonValue::Array(a)) => Some(a@),
            _ => match field(v, models_key()) {
                Some(JsonValue::Array(a)) => Some(a@),
                _ => None,
            },
        },
    }
}

/// The id of one model entry: the entry itself where it is a string, else
/// its `id` member where that is a string.
pub open spec fn entry_id(e: JsonValue) -> Option<Seq<char>> {
    match e {
        JsonValue::Str(s) => Some(s@),
        _ => match field(e, id_key()) {
            Some(JsonValue::Str(s)) => Some(s@),
            _ => None,
        },
    }
}

/// The ids of the entries that have one, in order.
pub open spec fn entry_ids(es: Seq<JsonValue>) -> Seq<Seq<char>>
    decreases es.len(),
{
    if es.len() == 0 {
        Seq::empty()
    } else {
        let rest = entry_ids(es.drop_last());
        match entry_id(es.last()) {
            Some(id) => rest.push(id),
            None => rest,
        }
    }
}

fn key_text(k: &str) -> (s: String)
    ensures
        s@ == k@,
{
    String::from_str(k)
}

fn list_of<'a>(v: &'a JsonValue) -> (res: Option<&'a Vec<JsonValue>>)
    ensures
        res matches Some(a) ==> model_list(*v) == Some(a@),
        res is None <==> model_list(*v) is None,
{
    if let JsonValue::Array(a) = v {
        return Some(a);
    }
    let data = key_text("data");
    proof {
        reveal_strlit("data");
        assert(data@ =~= data_key());
    }
    if let Some(JsonValue::Array(a)) = get_field(v, &data) {
        return Some(a);
    }
    let models = key_text("models");
    proof {
        reveal_strlit("models");
        assert(models@ =~= models_key());
    }
    if let Some(JsonValue::Array(a)) = get_field(v, &models) {
        return Some(a);
    }
    None
}

/// The model ids in an answer to a model-list request, or `None` where the
/// answer holds no model array.
pub fn model_ids(v: &JsonValue) -> (ids: Option<Vec<String>>)
    ensures
        ids is None <==> model_list(*v) is None,
        ids matches Some(l) ==> texts(l@) == entry_ids(model_list(*v).unwrap()),
{
    let list = match list_of(v) {
        Some(a) => a,
        None => return None,
    };
    let id = key_text("id");
    proof {
        reveal_strlit("id");
        assert(id@ =~= id_key());
    }
    let n = list.len();
    let mut out: Vec<String> = Vec::new();
    let mut i: usize = 0;
    while i < n
        invariant
            n == list@.len(),
            i <= n,
            id@ == id_key(),
            texts(out@) == entry_ids(list@.take(i as int)),
        decreases n - i,
    {
        let e = &list[i];
        let ghost prev = out@;
        match e {
            JsonValue::Str(s) => {
                out.push(s.clone());
            },
            _ => {
                if let Some(JsonValue::Str(s)) = get_field(e, &id) {
                    out.push(s.clone());
                }
            },
        }
        proof {
            assert(list@.take(i + 1).drop_last() =~= list@.take(i as int));
            assert(list@.take(i + 1).last() == *e);
            match entry_id(*e) {
                Some(x) => {
                    assert(texts(out@) =~= texts(prev).push(x));
                },
                None => {
                    assert(texts(out@) =~= texts(prev));
                },
            }
        }
        i = i + 1;
    }
    proof {
        assert(list@.take(n as int) =~= list@);
    }
    Some(out)
}

/// The model ids in the text of an answer to a model-list request: the
/// error's text where the answer is not JSON, `no_list` where it holds no
/// model array, else the ids (see [`model_ids`]).
pub fn models_from_body(body: &str, no_list: &str) -> (r: Result<Vec<String>, String>)
    ensures
        json_reading(body@) is Err ==> (r matches Err(e) && e@ == json_reading(body@)->Err_0),
        (json_reading(body@) matches Ok(v) && model_list(v) is None) ==> (r matches Err(e) && e@ == no_list@),
        (json_reading(body@) matches Ok(v) && model_list(v) is Some) ==> (r matches Ok(ids) && texts(ids@)
            == entry_ids(model_list(json_reading(body@)->Ok_0)->0)),
{
    let v = read_json(body)?;
    match model_ids(&v) {
        Some(ids) => Ok(ids),
        None => Err(String::from_str(no_list)),
    }
}

/// The message of an answer with no model array, for the command that fetches models.
pub open spec fn no_models_array_message() -> Seq<char> {
    seq!['N', 'o', ' ', 'm', 'o', 'd', 'e', 'l', 's', ' ', 'a', 'r', 'r', 'a', 'y']
}

/// The message of an answer with no model array, for the editor.
pub open spec fn no_models_message() -> Seq<char> {
    seq!['N', 'o', ' ', 'm', 'o', 'd', 'e', 'l', 's']
}

/// The model ids in an answer's text, as the fetch command reads them: an
/// answer with no model array is refused with "No models array".
pub fn answer_model_ids(body: &str) -> (r: Result<Vec<String>, String>)
    ensures
        json_reading(body@) is Err ==> (r matches Err(e) && e@ == json_reading(body@)->Err_0),
        (json_reading(body@) matches Ok(v) && model_list(v) is None) ==> (r matches Err(e) && e@
            == no_models_array_message()),
        (json_reading(body@) matches Ok(v) && model_list(v) is Some) ==> (r matches Ok(ids) && texts(ids@)
            == entry_ids(model_list(json_reading(body@)->Ok_0)->0)),
{
    proof {
        reveal_strlit("No models array");
        assert("No models array"@ =~= no_models_array_message());
    }
    models_from_body(body, "No models array")
}

/// The model ids in an answer's text, as the editor reads them: an answer
/// with no model array is refused with "No models".
pub fn editor_answer_model_ids(body: &str) -> (r: Result<Vec<String>, String>)
    ensures
        json_reading(body@) is Err ==> (r matches Err(e) && e@ == json_reading(body@)->Err_0),
        (json_reading(body@) matches Ok(v) && model_list(v) is None) ==> (r matches Err(e) && e@
            == no_models_message()),
        (json_reading(body@) matches Ok(v) && model_list(v) is Some) ==> (r matches Ok(ids) && texts(ids@)
            == entry_ids(model_list(json_reading(body@)->Ok_0)->0)),
{
    proof {
        reveal_strlit("No models");
        assert("No models"@ =~= no_models_message());
    }
    models_from_body(body, "No models")
}

/// The member looked up in an object is the first one with that name: a
/// member named `k` at index `i`, with none of that name before it, is what
/// a lookup of `k` finds, whatever the other members are.
pub proof fn law_first_member_found(es: Seq<(String, JsonValue)>, k: Seq<char>, i: int)
    requires
        0 <= i < es.len(),
        es[i].0@ == k,
        forall|j: int| 0 <= j < i ==> es[j].0@ != k,
    ensures
        member(es, k) == Some(es[i].1),
    decreases i,
{
    if i > 0 {
        let t = es.drop_first();
        assert forall|j: int| 0 <= j < i - 1 implies t[j].0@ != k by {
            assert(t[j] == es[j + 1]);
        }
        assert(t[i - 1] == es[i]);
        law_first_member_found(t, k, i - 1);
    }
}

/// The id read from an object entry is its `id` member where that is a
/// string, whatever other members (such as a display name) it has.
pub proof fn law_object_entry_id(e: JsonValue, s: String)
    requires
        e is Object,
        field(e, seq!['i', 'd']) == Some(JsonValue::Str(s)),
    ensures
        entry_id(e) == Some(s@),
{
    assert(id_key() =~= seq!['i', 'd']);
}

/// A string entry is its own id.
pub proof fn law_string_entry_id(s: String)
    ensures
        entry_id(JsonValue::Str(s)) == Some(s@),
{
}

/// A list of object entries, each with a string `id` member, reads as the
/// list of those ids, in order, one per entry.
pub proof fn law_object_entries_read_as_ids(es: Seq<JsonValue>, ids: Seq<Seq<char>>)
    requires
        es.len() == ids.len(),
        forall|i: int| 0 <= i < es.len() ==> (#[trigger] es[i]) is Object && (field(es[i], seq!['i', 'd']) matches Some(
            JsonValue::Str(x),
        ) && x@ == ids[i]),
    ensures
        entry_ids(es) == ids,
    decreases es.len(),
{
    if es.len() > 0 {
        let n = es.len() - 1;
        let e0 = es.drop_last();
        assert forall|i: int| 0 <= i < e0.len() implies (#[trigger] e0[i]) is Object && (field(e0[i], seq!['i', 'd']) matches Some(
            JsonValue::Str(x),
        ) && x@ == ids.drop_last()[i]) by {
            assert(e0[i] == es[i]);
        }
        law_object_entries_read_as_ids(e0, ids.drop_last());
        let last = es[n];
        assert(es.last() == last);
        assert(last is Object);
        if let Some(JsonValue::Str(x)) = field(last, seq!['i', 'd']) {
            law_object_entry_id(last, x);
        }
        assert(ids.drop_last().push(ids.last()) =~= ids);
    }
}

/// Where the answer is an array, that array is the model list; else an
/// object's `data` array; else its `models` array; else there is none.
pub proof fn law_model_list_order(v: JsonValue)
    ensures
        v matches JsonValue::Array(a) ==> model_list(v) == Some(a@),
        (!(v is Array) && field(v, seq!['d', 'a', 't', 'a']) matches Some(JsonValue::Array(a))) ==> model_list(v) == Some(
            field(v, seq!['d', 'a', 't', 'a'])->0->Array_0@,
        ),
        (!(v is Array) && !(field(v, seq!['d', 'a', 't', 'a']) matches Some(JsonValue::Array(_))) && field(
            v,
            seq!['m', 'o', 'd', 'e', 'l', 's'],
        ) matches Some(JsonValue::Array(a))) ==> model_list(v) == Some(
            field(v, seq!['m', 'o', 'd', 'e', 'l', 's'])->0->Array_0@,
        ),
        (!(v is Array) && !(field(v, seq!['d', 'a', 't', 'a']) matches Some(JsonValue::Array(_))) && !(field(
            v,
            seq!['m', 'o', 'd', 'e', 'l', 's'],
        ) matches Some(JsonValue::Array(_)))) ==> model_list(v) is None,
{
    assert(data_key() =~= seq!['d', 'a', 't', 'a']);
    assert(models_key() =~= seq!['m', 'o', 'd', 'e', 'l', 's']);
}

/// Where fetching the model list stands.
pub enum FetchState {
    /// Nothing is being fetched or picked.
    Idle,
    /// A request is on its way.
    Loading,
    /// A list came back and the user picks from it.
    Done,
}

/// The model picker: the state of the fetch, the list that came back, the
/// provider it is for, the ids picked so far and the last error.
pub struct FetchPanel {
    pub state: FetchState,
    pub fetched: Vec<String>,
    pub provider_id: String,
    pub selected: StrMap<()>,
    pub error: Option<String>,
}

impl FetchPanel {
    /// A picker with nothing fetched.
    pub fn new() -> (p: FetchPanel)
        ensures
            p.state == FetchState::Idle,
            p.fetched@.len() == 0,
            p.provider_id@.len() == 0,
            p.selected@.dom().is_empty(),
            p.error is None,
    {
        let p = FetchPanel {
            state: FetchState::Idle,
            fetched: Vec::new(),
            provider_id: String::new(),
            selected: StrMap::new(),
            error: None,
        };
        assert(p.selected@.dom() =~= Set::<Seq<char>>::empty());
        p
    }

    /// A request for the models of provider `id` has been sent.
    pub fn start(&mut self, id: String)
        ensures
            final(self).state == FetchState::Loading,
            final(self).provider_id@ == id@,
            final(self).fetched@ == old(self).fetched@,
            final(self).selected@ == old(self).selected@,
            final(self).error == old(self).error,
    {
        self.state = FetchState::Loading;
        self.provider_id = id;
    }

    /// The answer for provider `id` came back: a list opens the picker with
    /// nothing picked; an error closes it and is kept to be shown.
    pub fn receive(&mut self, id: String, result: Result<Vec<String>, String>)
        ensures
            result is Ok ==> {
                &&& final(self).state == FetchState::Done
                &&& final(self).fetched@ == result->Ok_0@
                &&& final(self).provider_id@ == id@
                &&& final(self).selected@.dom().is_empty()
                &&& final(self).error == old(self).error
            },
            result is Err ==> {
                &&& final(self).state == FetchState::Idle
                &&& final(self).error == Some(result->Err_0)
                &&& final(self).fetched@ == old(self).fetched@
                &&& final(self).provider_id@ == old(self).provider_id@
                &&& final(self).selected@ == old(self).selected@
            },
    {
        match result {
            Ok(list) => {
                self.fetched = list;
                self.provider_id = id;
                self.selected = StrMap::new();
                self.state = FetchState::Done;
            },
            Err(e) => {
                self.state = FetchState::Idle;
                self.error = Some(e);
            },
        }
    }

    /// The request ended without an answer.
    pub fn disconnect(&mut self)
        ensures
            final(self).state == FetchState::Idle,
            final(self).fetched@ == old(self).fetched@,
            final(self).provider_id@ == old(self).provider_id@,
            final(self).selected@ == old(self).selected@,
            final(self).error == old(self).error,
    {
        self.state = FetchState::Idle;
    }

    /// Whether the "pick all" box shows as ticked for the offered ids
    /// `avail`: there are some, and as many are picked.
    pub fn all_picked(&self, avail: &Vec<String>) -> (res: bool)
        ensures
            res == (avail@.len() > 0 && self.selected@.len() == avail@.len()),
    {
        avail.len() > 0 && self.selected.len() == avail.len()
    }

    /// Picks one id, or unpicks it.
    pub fn set_picked(&mut self, id: String, on: bool)
        ensures
            on ==> final(self).selected@.dom() == old(self).selected@.dom().insert(id@),
            !on ==> final(self).selected@.dom() == old(self).selected@.dom().remove(id@),
            final(self).state == old(self).state,
            final(self).fetched@ == old(self).fetched@,
            final(self).provider_id@ == old(self).provider_id@,
            final(self).error == old(self).error,
    {
        if on {
            let _ = self.selected.insert(id, ());
        } else {
            let _ = self.selected.remove(&id);
        }
    }

    /// Unpicks everything.
    pub fn clear_picked(&mut self)
        ensures
            final(self).selected@.dom().is_empty(),
            final(self).state == old(self).state,
            final(self).fetched@ == old(self).fetched@,
            final(self).provider_id@ == old(self).provider_id@,
            final(self).error == old(self).error,
    {
        self.selected = StrMap::new();
    }

    /// The "pick all" box was set to `on`: picks every offered id in `avail`,
    /// or unpicks everything.
    pub fn set_all_picked(&mut self, on: bool, avail: &Vec<String>)
        ensures
            on ==> final(self).selected@.dom() == old(self).selected@.dom() + texts(avail@).to_set(),
            !on ==> final(self).selected@.dom().is_empty(),
            final(self).state == old(self).state,
            final(self).fetched@ == old(self).fetched@,
            final(self).provider_id@ == old(self).provider_id@,
            final(self).error == old(self).error,
    {
        if !on {
            self.clear_picked();
            return;
        }
        let ghost start = self.selected@.dom();
        let n = avail.len();
        let mut i: usize = 0;
        while i < n
            invariant
                n == avail@.len(),
                i <= n,
                self.selected@.dom() == start + texts(avail@).take(i as int).to_set(),
                self.state == old(self).state,
                self.fetched@ == old(self).fetched@,
                self.provider_id@ == old(self).provider_id@,
                self.error == old(self).error,
            decreases n - i,
        {
            let _ = self.selected.insert(avail[i].clone(), ());
            proof {
                let t = texts(avail@);
                assert(t[i as int] == avail@[i as int]@);
                assert(t.take(i + 1) =~= t.take(i as int).push(t[i as int]));
                assert(t.take(i + 1).to_set() =~= t.take(i as int).to_set().insert(t[i as int])) by {
                    broadcast use vstd::seq_lib::group_seq_properties;
                }
                assert(self.selected@.dom() =~= start + t.take(i + 1).to_set());
            }
            i = i + 1;
        }
        proof {
            assert(texts(avail@).take(n as int) =~= texts(avail@));
        }
    }

    /// Adds the picked ids to the provider they were fetched for (see
    /// [`Config::add_fetched_models`]) and closes the picker; gives back how
    /// many ids were picked.
    pub fn add_picked(&mut self, config: &mut Config) -> (count: usize)
        ensures
            count == old(self).selected@.len(),
            old(config)@.dom().contains(old(self).provider_id@) ==> final(config)@ == old(config)@.insert(
                old(self).provider_id@,
                ProviderView {
                    models: with_fetched(old(config)@[old(self).provider_id@].models, old(self).selected.key_list()),
                    ..old(config)@[old(self).provider_id@]
                },
            ),
            !old(config)@.dom().contains(old(self).provider_id@) ==> final(config)@ == old(config)@,
            final(self).state == FetchState::Idle,
            final(self).fetched@ == old(self).fetched@,
            final(self).provider_id@ == old(self).provider_id@,
            final(self).selected@ == old(self).selected@,
            final(self).error == old(self).error,
    {
        let picked = self.selected.keys();
        let _ = self.selected.len();
        let count = config.add_fetched_models(&self.provider_id, &picked);
        self.state = FetchState::Idle;
        count
    }

    /// The picker was closed without adding anything.
    pub fn cancel(&mut self)
        ensures
            final(self).state == FetchState::Idle,
            final(self).fetched@ == old(self).fetched@,
            final(self).provider_id@ == old(self).provider_id@,
            final(self).selected@ == old(self).selected@,
            final(self).error == old(self).error,
    {
        self.state = FetchState::Idle;
    }

    /// The error message was closed.
    pub fn dismiss_error(&mut self)
        ensures
            final(self).error is None,
            final(self).state == old(self).state,
            final(self).fetched@ == old(self).fetched@,
            final(self).provider_id@ == old(self).provider_id@,
            final(self).selected@ == old(self).selected@,
    {
        self.error = None;
    }
}

} // verus!
