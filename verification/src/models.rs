//! The models that the agents run on.

use vstd::prelude::*;
use crate::chars::{is_space, CharClass};
use crate::order::{in_order, lemma_ordered_set_unique, sort_dedup};
use crate::text::{
    begins, lemma_trimmed_bare, opt_text, starts_with, text_is, texts, trim, trim_by, trimmed,
    trimmed_by,
};

verus! {

/// The model that an agent runs on where nothing else is chosen.
pub const DEFAULT_AGENT_MODEL: &'static str = "qwen2.5-coder:7b";

/// The model of the coordinator.
pub const LOCAL_GPT_ROUTER_MODEL: &'static str = "gpt-oss:20b";

/// The small Qwen model.
pub const QWEN_CODER_MODEL: &'static str = "qwen2.5-coder:1.5b";

/// The small DeepSeek model.
pub const DEEPSEEK_CODER_MODEL: &'static str = "deepseek-coder:1.3b";

/// The StarCoder model.
pub const STARCODER_MODEL: &'static str = "starcoder2:7b";

/// The large DeepSeek model.
pub const DEEPSEEK_LARGE_CODER_MODEL: &'static str = "deepseek-coder:6.7b";

/// The model that is made here, from a model file, and never downloaded.
pub const OPENCLAW_AGENT_MODEL: &'static str = "openclaw-agent:latest";

/// The models that can be downloaded.
pub open spec fn downloadable_models() -> Seq<Seq<char>> {
    seq![
        LOCAL_GPT_ROUTER_MODEL@,
        DEFAULT_AGENT_MODEL@,
        QWEN_CODER_MODEL@,
        DEEPSEEK_CODER_MODEL@,
        STARCODER_MODEL@,
        DEEPSEEK_LARGE_CODER_MODEL@,
    ]
}

/// The model of the coder with the given number.
pub open spec fn coder_model(index: int, primary: Seq<char>) -> Seq<char> {
    if index == 0 {
        primary
    } else if index == 1 {
        LOCAL_GPT_ROUTER_MODEL@
    } else if index == 2 {
        OPENCLAW_AGENT_MODEL@
    } else if index == 3 {
        QWEN_CODER_MODEL@
    } else if index == 4 {
        DEEPSEEK_CODER_MODEL@
    } else if index == 5 {
        STARCODER_MODEL@
    } else {
        DEEPSEEK_LARGE_CODER_MODEL@
    }
}

/// The model of the coder with the given number.
pub fn agent_model_for_index(index: usize, primary_model: &str) -> (r: String)
    ensures
        r@ == coder_model(index as int, primary_model@),
{
    if index == 0 {
        primary_model.to_owned()
    } else if index == 1 {
        LOCAL_GPT_ROUTER_MODEL.to_owned()
    } else if index == 2 {
        OPENCLAW_AGENT_MODEL.to_owned()
    } else if index == 3 {
        QWEN_CODER_MODEL.to_owned()
    } else if index == 4 {
        DEEPSEEK_CODER_MODEL.to_owned()
    } else if index == 5 {
        STARCODER_MODEL.to_owned()
    } else {
        DEEPSEEK_LARGE_CODER_MODEL.to_owned()
    }
}

/// The models that have to be there for `count` coders: that of each of them but the one that is
/// made here, and the primary one in any case.
pub open spec fn models_for_count(primary: Seq<char>, count: int) -> Set<Seq<char>> {
    Set::new(
        |m: Seq<char>|
            m == primary || exists|i: int|
                0 <= i < count && i != 2 && m == #[trigger] coder_model(i, primary),
    )
}

/// The given texts in order, each of them once.
pub open spec fn listed(set: Set<Seq<char>>, list: Seq<Seq<char>>) -> bool {
    &&& in_order(list)
    &&& forall|m: Seq<char>| #[trigger] list.contains(m) <==> set.contains(m)
}

/// The models that have to be there for `count` coders, in order and each of them once.
pub open spec fn model_list(primary: Seq<char>, count: int) -> Seq<Seq<char>> {
    choose|list: Seq<Seq<char>>| listed(models_for_count(primary, count), list)
}

/// There is only one such list.
proof fn lemma_listed_unique(set: Set<Seq<char>>, a: Seq<Seq<char>>, b: Seq<Seq<char>>)
    requires
        listed(set, a),
        listed(set, b),
    ensures
        a == b,
{
    assert forall|t: Seq<char>| #[trigger] b.contains(t) <==> a.contains(t) by {
        assert(b.contains(t) <==> set.contains(t));
        assert(a.contains(t) <==> set.contains(t));
    }
    lemma_ordered_set_unique(a, b, a);
}

/// The models that have to be there for `count` coders, in order and each of them once.
pub fn agent_models_for_count(primary_model: &str, count: usize) -> (r: Vec<String>)
    ensures
        listed(models_for_count(primary_model@, count as int), texts(r@)),
        texts(r@) == model_list(primary_model@, count as int),
{
    let mut all: Vec<String> = Vec::new();
    all.push(primary_model.to_owned());
    let n: usize = if count > 7 {
        7
    } else {
        count
    };
    let mut i: usize = 0;
    let ghost p = primary_model@;
    assert(texts(all@) =~= seq![p]);
    assert(texts(all@)[0] == p);
    while i < n
        invariant
            i <= n,
            p == primary_model@,
            forall|m: Seq<char>| #[trigger]
                texts(all@).contains(m) <==> models_for_count(p, i as int).contains(m),
        decreases n - i,
    {
        let ghost before = all@;
        if i != 2 {
            let model = agent_model_for_index(i, primary_model);
            let ghost added = model@;
            all.push(model);
            assert(texts(all@) =~= texts(before).push(added));
            assert forall|m: Seq<char>| #[trigger]
                texts(all@).contains(m) <==> models_for_count(p, i + 1).contains(m) by {
                lemma_contains_push(texts(before), added, m);
                assert(texts(before).contains(m) <==> models_for_count(p, i as int).contains(m));
                assert(added == coder_model(i as int, p));
            }
        } else {
            assert forall|m: Seq<char>| #[trigger]
                texts(all@).contains(m) <==> models_for_count(p, i + 1).contains(m) by {
                assert(texts(before).contains(m) <==> models_for_count(p, i as int).contains(m));
            }
        }
        i += 1;
    }
    let r = sort_dedup(&all);
    proof {
        assert forall|m: Seq<char>| #[trigger]
            texts(r@).contains(m) <==> models_for_count(p, count as int).contains(m) by {
            assert(texts(r@).contains(m) <==> texts(all@).contains(m));
            assert(texts(all@).contains(m) <==> models_for_count(p, n as int).contains(m));
            if models_for_count(p, count as int).contains(m) && m != p {
                let k = choose|k: int|
                    0 <= k < count && k != 2 && m == #[trigger] coder_model(k, p);
                if k >= n {
                    assert(m == coder_model(6, p));
                }
            }
        }
        assert(listed(models_for_count(p, count as int), texts(r@)));
        lemma_listed_unique(
            models_for_count(p, count as int),
            texts(r@),
            model_list(p, count as int),
        );
    }
    r
}

/// What stands in a list with one more element.
proof fn lemma_contains_push(s: Seq<Seq<char>>, a: Seq<char>, m: Seq<char>)
    ensures
        s.push(a).contains(m) <==> s.contains(m) || m == a,
{
    if s.contains(m) {
        let i = s.index_of(m);
        assert(s.push(a)[i] == m);
    }
    assert(s.push(a)[s.len() as int] == a);
    if s.push(a).contains(m) && m != a {
        let i = s.push(a).index_of(m);
        assert(s[i] == m);
    }
}

/// A model that is made here rather than downloaded.
pub open spec fn made_here(model: Seq<char>) -> bool {
    begins(model, "openclaw-agent"@)
}

/// The models of a list that have to be downloaded, in order: those that are not there and are
/// not made here.
pub open spec fn to_download(models: Seq<Seq<char>>, available: Seq<Seq<char>>) -> Seq<Seq<char>> {
    models.filter(|m: Seq<char>| !made_here(m) && !available.contains(m))
}

/// Whether a text is in a list.
pub fn list_has(list: &Vec<String>, text: &str) -> (r: bool)
    ensures
        r == texts(list@).contains(text@),
{
    let n: usize = list.len();
    let ghost all = texts(list@);
    let mut i: usize = 0;
    while i < n
        invariant
            i <= n == list@.len(),
            all == texts(list@),
            forall|k: int| 0 <= k < i ==> #[trigger] all[k] != text@,
        decreases n - i,
    {
        assert(all[i as int] == list@[i as int]@);
        if text_is(list[i].as_str(), text) {
            return true;
        }
        i += 1;
    }
    false
}

/// The models of a list that have to be downloaded, in order.
pub fn ensure_required_models(models: &Vec<String>, available: &Vec<String>) -> (r: Vec<String>)
    ensures
        texts(r@) == to_download(texts(models@), texts(available@)),
{
    let n: usize = models.len();
    let ghost all = texts(models@);
    let ghost there = texts(available@);
    let ghost f = |m: Seq<char>| !made_here(m) && !there.contains(m);
    let mut out: Vec<String> = Vec::new();
    let mut i: usize = 0;
    proof {
        reveal(Seq::filter);
        assert(all.take(0) =~= Seq::<Seq<char>>::empty());
        assert(texts(out@) =~= Seq::<Seq<char>>::empty());
    }
    while i < n
        invariant
            i <= n == models@.len(),
            all == texts(models@),
            there == texts(available@),
            f == (|m: Seq<char>| !made_here(m) && !there.contains(m)),
            texts(out@) == all.take(i as int).filter(f),
        decreases n - i,
    {
        let model = models[i].as_str();
        let ghost before = out@;
        proof {
            reveal(Seq::filter);
            assert(all.take(i + 1).drop_last() =~= all.take(i as int));
            assert(all.take(i + 1).last() == model@);
        }
        if !starts_with(model, "openclaw-agent") && !list_has(available, model) {
            out.push(model.to_owned());
            assert(texts(out@) =~= texts(before).push(model@));
        }
        i += 1;
    }
    assert(all.take(n as int) =~= all);
    out
}

/// The models that are prepared before any work: all that can be downloaded, and the selected one
/// unless it is made here.
pub open spec fn prepared_models(selected: Seq<char>) -> Set<Seq<char>> {
    Set::new(
        |m: Seq<char>| downloadable_models().contains(m) || (m == selected && !made_here(selected)),
    )
}

/// The models that are prepared before any work, in order and each of them once.
pub fn ensure_all_agent_models(selected_model: &str) -> (r: Vec<String>)
    ensures
        listed(prepared_models(selected_model@), texts(r@)),
{
    let mut all: Vec<String> = Vec::new();
    all.push(LOCAL_GPT_ROUTER_MODEL.to_owned());
    all.push(DEFAULT_AGENT_MODEL.to_owned());
    all.push(QWEN_CODER_MODEL.to_owned());
    all.push(DEEPSEEK_CODER_MODEL.to_owned());
    all.push(STARCODER_MODEL.to_owned());
    all.push(DEEPSEEK_LARGE_CODER_MODEL.to_owned());
    assert(texts(all@) =~= downloadable_models());
    let ghost base = texts(all@);
    if !starts_with(selected_model, "openclaw-agent") {
        all.push(selected_model.to_owned());
        assert(texts(all@) =~= base.push(selected_model@));
    }
    let r = sort_dedup(&all);
    proof {
        assert forall|m: Seq<char>| #[trigger]
            texts(r@).contains(m) <==> prepared_models(selected_model@).contains(m) by {
            assert(texts(r@).contains(m) <==> texts(all@).contains(m));
            if !made_here(selected_model@) {
                lemma_contains_push(base, selected_model@, m);
            }
        }
    }
    r
}

/// Whether the model that is made here still has to be made.
pub fn lacks_openclaw(available: &Vec<String>) -> (r: bool)
    ensures
        r == !texts(available@).contains(OPENCLAW_AGENT_MODEL@),
{
    !list_has(available, OPENCLAW_AGENT_MODEL)
}

/// The program that serves the models, as far as the setting names one.
pub open spec fn server_program(setting: Seq<char>) -> Option<Seq<char>> {
    let path = trimmed_by(trimmed(setting), CharClass::Quote);
    if path.len() == 0 || path == "Not found"@ || path == "Nicht gefunden"@ {
        None
    } else {
        Some(path)
    }
}

/// The program that serves the models, as far as the setting names one.
pub fn ollama_program(setting: &str) -> (r: Option<String>)
    ensures
        opt_text(r) == server_program(setting@),
{
    let path = trim_by(trim(setting), CharClass::Quote);
    if path.is_empty() || text_is(path, "Not found") || text_is(path, "Nicht gefunden") {
        None
    } else {
        Some(path.to_owned())
    }
}

/// The first coder works with the chosen model, each other with a model of its own; and for so many
/// coders exactly their models have to be there, but for the one that is made here.
pub proof fn every_coder_has_its_model(primary: Seq<char>, count: int, i: int)
    requires
        0 <= i < count,
    ensures
        coder_model(0, primary) == primary,
        i == 1 ==> coder_model(i, primary) == "gpt-oss:20b"@,
        i == 2 ==> coder_model(i, primary) == "openclaw-agent:latest"@,
        i == 3 ==> coder_model(i, primary) == "qwen2.5-coder:1.5b"@,
        i == 4 ==> coder_model(i, primary) == "deepseek-coder:1.3b"@,
        i == 5 ==> coder_model(i, primary) == "starcoder2:7b"@,
        i >= 6 ==> coder_model(i, primary) == "deepseek-coder:6.7b"@,
        models_for_count(primary, count).contains(primary),
        i != 2 ==> models_for_count(primary, count).contains(coder_model(i, primary)),
        forall|m: Seq<char>| #[trigger]
            models_for_count(primary, count).contains(m) && m != primary ==> exists|k: int|
                0 < k < count && k != 2 && m == #[trigger] coder_model(k, primary),
{
    assert forall|m: Seq<char>| #[trigger]
        models_for_count(primary, count).contains(m) && m != primary implies exists|k: int|
        0 < k < count && k != 2 && m == #[trigger] coder_model(k, primary) by {
        let k = choose|k: int|
            0 <= k < count && k != 2 && m == #[trigger] coder_model(k, primary);
        assert(k > 0);
    }
}

/// All models that the coders work with, and the chosen one, are prepared before any work; the one
/// that is made here is not among those that are downloaded.
pub proof fn all_models_are_prepared(selected: Seq<char>, i: int)
    requires
        0 < i,
    ensures
        i != 2 ==> prepared_models(selected).contains(coder_model(i, selected)),
        prepared_models(selected).contains("qwen2.5-coder:7b"@),
        !begins(selected, "openclaw-agent"@) ==> prepared_models(selected).contains(selected),
        forall|m: Seq<char>| #[trigger]
            prepared_models(selected).contains(m) ==> m == selected || m == "gpt-oss:20b"@ || m
                == "qwen2.5-coder:7b"@ || m == "qwen2.5-coder:1.5b"@ || m == "deepseek-coder:1.3b"@
                || m == "starcoder2:7b"@ || m == "deepseek-coder:6.7b"@,
{
    let d = downloadable_models();
    assert(d[0] == LOCAL_GPT_ROUTER_MODEL@);
    assert(d[1] == DEFAULT_AGENT_MODEL@);
    assert(d[2] == QWEN_CODER_MODEL@);
    assert(d[3] == DEEPSEEK_CODER_MODEL@);
    assert(d[4] == STARCODER_MODEL@);
    assert(d[5] == DEEPSEEK_LARGE_CODER_MODEL@);
}

/// The program of the model server is the setting itself, where that is a plain path; a setting that
/// is empty or says that nothing was found names none.
pub proof fn the_server_is_the_one_that_is_set(setting: Seq<char>)
    requires
        setting.len() > 0 ==> !is_space(setting[0]) && !is_space(setting.last()) && setting[0] != '"'
            && setting.last() != '"',
    ensures
        setting.len() > 0 && setting != "Not found"@ && setting != "Nicht gefunden"@
            ==> server_program(setting) == Some(setting),
        setting.len() == 0 || setting == "Not found"@ || setting == "Nicht gefunden"@
            ==> server_program(setting) is None,
{
    lemma_trimmed_bare(setting, CharClass::Space);
    lemma_trimmed_bare(setting, CharClass::Quote);
}

/// What is downloaded is never a model that is there already, nor one that is made here, and
/// nothing else of the list is left out.
pub proof fn only_missing_models_are_downloaded(
    models: Seq<Seq<char>>,
    available: Seq<Seq<char>>,
    m: Seq<char>,
)
    ensures
        to_download(models, available).contains(m) <==> models.contains(m) && !made_here(m)
            && !available.contains(m),
{
    let f = |m: Seq<char>| !made_here(m) && !available.contains(m);
    let kept = models.filter(f);
    if kept.contains(m) {
        models.lemma_filter_contains_rev(f, m);
        models.lemma_filter_pred(f, kept.index_of(m));
    }
    if models.contains(m) && f(m) {
        models.lemma_filter_contains(f, models.index_of(m));
    }
}

} // verus!
