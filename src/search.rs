//! Search parameters, the registry of sources, and how the answers of many
//! sources are joined into one result.
use vstd::prelude::*;
use crate::text::{join2, same_text};
use crate::types::{error_text, Error, Manga, SearchParams, SortOrder};

verus! {

/// Why a `SearchParamsBuilder` could not build.
#[derive(Debug, Clone, PartialEq, Eq)]
pub enum SearchParamsBuilderError {
    /// The named field was never set.
    UninitializedField(String),
}

/// Builds `SearchParams` field by field; `query` must be set.
#[derive(Debug, Clone)]
pub struct SearchParamsBuilder {
    pub query: Option<String>,
    pub limit: Option<usize>,
    pub offset: Option<usize>,
    pub include_tags: Vec<String>,
    pub exclude_tags: Vec<String>,
    pub sort_by: Option<SortOrder>,
}

impl SearchParamsBuilder {
    /// A builder with nothing set.
    pub fn new() -> (r: SearchParamsBuilder)
        ensures
            r.query is None,
            r.limit is None,
            r.offset is None,
            r.include_tags@.len() == 0,
            r.exclude_tags@.len() == 0,
            r.sort_by is None,
    {
        SearchParamsBuilder {
            query: None,
            limit: None,
            offset: None,
            include_tags: Vec::new(),
            exclude_tags: Vec::new(),
            sort_by: None,
        }
    }

    pub fn query(self, value: String) -> (r: SearchParamsBuilder)
        ensures
            r == (SearchParamsBuilder { query: Some(value), ..self }),
    {
        SearchParamsBuilder { query: Some(value), ..self }
    }

    pub fn limit(self, value: Option<usize>) -> (r: SearchParamsBuilder)
        ensures
            r == (SearchParamsBuilder { limit: value, ..self }),
    {
        SearchParamsBuilder { limit: value, ..self }
    }

    pub fn offset(self, value: Option<usize>) -> (r: SearchParamsBuilder)
        ensures
            r == (SearchParamsBuilder { offset: value, ..self }),
    {
        SearchParamsBuilder { offset: value, ..self }
    }

    pub fn include_tags(self, value: Vec<String>) -> (r: SearchParamsBuilder)
        ensures
            r == (SearchParamsBuilder { include_tags: value, ..self }),
    {
        SearchParamsBuilder { include_tags: value, ..self }
    }

    pub fn exclude_tags(self, value: Vec<String>) -> (r: SearchParamsBuilder)
        ensures
            r == (SearchParamsBuilder { exclude_tags: value, ..self }),
    {
        SearchParamsBuilder { exclude_tags: value, ..self }
    }

    pub fn sort_by(self, value: Option<SortOrder>) -> (r: SearchParamsBuilder)
        ensures
            r == (SearchParamsBuilder { sort_by: value, ..self }),
    {
        SearchParamsBuilder { sort_by: value, ..self }
    }

    /// The parameters, each field as it was set; fails when no query was set.
    pub fn build(self) -> (r: Result<SearchParams, SearchParamsBuilderError>)
        ensures
            self.query is None <==> r is Err,
            r matches Err(e) ==> e matches SearchParamsBuilderError::UninitializedField(f) && f@
                == "query"@,
            r matches Ok(p) ==> p == (SearchParams {
                query: self.query->0,
                limit: self.limit,
                offset: self.offset,
                include_tags: self.include_tags,
                exclude_tags: self.exclude_tags,
                sort_by: self.sort_by,
            }),
    {
        match self.query {
            Some(query) => Ok(
                SearchParams {
                    query,
                    limit: self.limit,
                    offset: self.offset,
                    include_tags: self.include_tags,
                    exclude_tags: self.exclude_tags,
                    sort_by: self.sort_by,
                },
            ),
            None => Err(SearchParamsBuilderError::UninitializedField(String::from_str("query"))),
        }
    }
}

impl Default for SearchParamsBuilder {
    fn default() -> (r: SearchParamsBuilder)
        ensures
            r.query is None,
            r.limit is None,
            r.offset is None,
            r.include_tags@.len() == 0,
            r.exclude_tags@.len() == 0,
            r.sort_by is None,
    {
        SearchParamsBuilder::new()
    }
}

/// A search under construction: a query and the options set on it.
#[derive(Debug, Clone)]
pub struct SearchBuilder {
    params: SearchParams,
}

impl SearchBuilder {
    /// The parameters set so far.
    pub closed spec fn spec_params(&self) -> SearchParams {
        self.params
    }

    pub fn new(query: String) -> (r: SearchBuilder)
        ensures
            r.spec_params().query@ == query@,
            r.spec_params().limit is None,
            r.spec_params().offset is None,
            r.spec_params().include_tags@.len() == 0,
            r.spec_params().exclude_tags@.len() == 0,
            r.spec_params().sort_by is None,
    {
        SearchBuilder { params: SearchParams::from_query(query) }
    }

    pub fn limit(self, limit: usize) -> (r: SearchBuilder)
        ensures
            r.spec_params() == (SearchParams { limit: Some(limit), ..self.spec_params() }),
    {
        SearchBuilder { params: SearchParams { limit: Some(limit), ..self.params } }
    }

    pub fn offset(self, offset: usize) -> (r: SearchBuilder)
        ensures
            r.spec_params() == (SearchParams { offset: Some(offset), ..self.spec_params() }),
    {
        SearchBuilder { params: SearchParams { offset: Some(offset), ..self.params } }
    }

    pub fn include_tags(self, tags: Vec<String>) -> (r: SearchBuilder)
        ensures
            r.spec_params() == (SearchParams { include_tags: tags, ..self.spec_params() }),
    {
        SearchBuilder { params: SearchParams { include_tags: tags, ..self.params } }
    }

    pub fn exclude_tags(self, tags: Vec<String>) -> (r: SearchBuilder)
        ensures
            r.spec_params() == (SearchParams { exclude_tags: tags, ..self.spec_params() }),
    {
        SearchBuilder { params: SearchParams { exclude_tags: tags, ..self.params } }
    }

    pub fn sort_by(self, sort: SortOrder) -> (r: SearchBuilder)
        ensures
            r.spec_params() == (SearchParams { sort_by: Some(sort), ..self.spec_params() }),
    {
        SearchBuilder { params: SearchParams { sort_by: Some(sort), ..self.params } }
    }

    /// The parameters, without running the search.
    pub fn build(self) -> (r: SearchParams)
        ensures
            r == self.spec_params(),
    {
        self.params
    }
}

/// What identifies a source in the registry.
pub trait Identified {
    /// The short stable id of the source.
    fn id(&self) -> String;
}

/// The registered sources, in the order they were added, with their ids.
pub struct Sources<A> {
    sources: Vec<A>,
    ids: Vec<String>,
}

/// The index of the last id in `ids` before `j` that equals `id`, or `-1`.
pub open spec fn last_with_id(ids: Seq<Seq<char>>, id: Seq<char>, j: int) -> int
    decreases j,
{
    if j <= 0 {
        -1
    } else if ids[j - 1] == id {
        j - 1
    } else {
        last_with_id(ids, id, j - 1)
    }
}

impl<A> Sources<A> {
    /// The ids of the registered sources, in the order they were added.
    pub closed spec fn spec_ids(&self) -> Seq<Seq<char>> {
        self.ids@.map_values(|s: String| s@)
    }

    /// The registered sources, in the order they were added.
    pub closed spec fn spec_sources(&self) -> Seq<A> {
        self.sources@
    }

    pub closed spec fn wf(&self) -> bool {
        self.sources@.len() == self.ids@.len()
    }

    pub fn new() -> (r: Sources<A>)
        ensures
            r.wf(),
            r.spec_ids().len() == 0,
    {
        Sources { sources: Vec::new(), ids: Vec::new() }
    }

    /// Starts a search for `query` over the registered sources.
    pub fn search(&self, query: String) -> (r: SearchBuilder)
        ensures
            r.spec_params().query@ == query@,
            r.spec_params().limit is None,
            r.spec_params().offset is None,
            r.spec_params().include_tags@.len() == 0,
            r.spec_params().exclude_tags@.len() == 0,
            r.spec_params().sort_by is None,
    {
        SearchBuilder::new(query)
    }

    /// Registers `source` under `id`, after those already there.
    pub fn add_with_id(&mut self, id: String, source: A)
        requires
            old(self).wf(),
        ensures
            final(self).wf(),
            final(self).spec_ids() == old(self).spec_ids().push(id@),
            final(self).spec_sources() == old(self).spec_sources().push(source),
    {
        let ghost before = self.ids@;
        self.sources.push(source);
        self.ids.push(id);
        assert(self.ids@.map_values(|s: String| s@) =~= before.map_values(|s: String| s@).push(
            self.ids@.last()@,
        ));
    }

    /// The source registered last under `id`, if any.
    pub fn get(&self, id: &str) -> (r: Option<&A>)
        requires
            self.wf(),
        ensures
            last_with_id(self.spec_ids(), id@, self.spec_ids().len() as int) == -1 <==> r is None,
            r matches Some(a) ==> *a == self.spec_sources()[last_with_id(
                self.spec_ids(),
                id@,
                self.spec_ids().len() as int,
            )],
    {
        let ghost ids = self.spec_ids();
        let mut j: usize = self.ids.len();
        while j > 0
            invariant
                j <= self.ids@.len(),
                self.wf(),
                ids == self.ids@.map_values(|s: String| s@),
                last_with_id(ids, id@, ids.len() as int) == last_with_id(ids, id@, j as int),
            decreases j,
        {
            if same_text(self.ids[j - 1].as_str(), id) {
                assert(ids[j - 1] == id@);
                return Some(&self.sources[j - 1]);
            }
            assert(ids[j - 1] != id@);
            j = j - 1;
        }
        None
    }

    /// The registered sources, in the order they were added.
    pub fn entries(&self) -> (r: &Vec<A>)
        ensures
            r@ == self.spec_sources(),
    {
        &self.sources
    }

    /// The ids of the registered sources, in the order they were added.
    pub fn list_ids(&self) -> (r: Vec<String>)
        ensures
            r@.map_values(|s: String| s@) == self.spec_ids(),
    {
        let mut r: Vec<String> = Vec::new();
        let mut i: usize = 0;
        while i < self.ids.len()
            invariant
                i <= self.ids@.len(),
                r@ == self.ids@.subrange(0, i as int),
            decreases self.ids@.len() - i,
        {
            r.push(self.ids[i].clone());
            assert(r@ == self.ids@.subrange(0, i as int + 1));
            i = i + 1;
        }
        assert(r@ == self.ids@);
        r
    }

    pub fn len(&self) -> (r: usize)
        requires
            self.wf(),
        ensures
            r == self.spec_ids().len(),
    {
        self.sources.len()
    }

    pub fn is_empty(&self) -> (r: bool)
        requires
            self.wf(),
        ensures
            r == (self.spec_ids().len() == 0),
    {
        self.sources.len() == 0
    }
}

impl<A> Default for Sources<A> {
    fn default() -> (r: Sources<A>)
        ensures
            r.wf(),
            r.spec_ids().len() == 0,
    {
        Sources::new()
    }
}

impl<A: Identified> Sources<A> {
    /// Registers `source` under its own id, after those already there.
    pub fn add(&mut self, source: A)
        requires
            old(self).wf(),
        ensures
            final(self).wf(),
            final(self).spec_ids().len() == old(self).spec_ids().len() + 1,
            final(self).spec_ids().subrange(0, old(self).spec_ids().len() as int)
                == old(self).spec_ids(),
            final(self).spec_sources() == old(self).spec_sources().push(source),
    {
        let id = source.id();
        self.add_with_id(id, source);
        assert(self.spec_ids().subrange(0, self.spec_ids().len() - 1) =~= old(self).spec_ids());
    }
}

/// `b` is `a` with the source id `id`.
pub open spec fn retagged(a: Manga, b: Manga, id: Seq<char>) -> bool {
    &&& b.id == a.id
    &&& b.title == a.title
    &&& b.cover_url == a.cover_url
    &&& b.authors == a.authors
    &&& b.description == a.description
    &&& b.tags == a.tags
    &&& b.source_id@ == id
}

/// Sets the source id of every entry to `source_id`, keeping the order.
pub fn tag_source(items: Vec<Manga>, source_id: &str) -> (r: Vec<Manga>)
    ensures
        r@.len() == items@.len(),
        forall|i: int| 0 <= i < r@.len() ==> retagged(items@[i], #[trigger] r@[i], source_id@),
{
    let ghost orig = items@;
    let mut rest = items;
    let mut out: Vec<Manga> = Vec::new();
    while rest.len() > 0
        invariant
            out@.len() + rest@.len() == orig.len(),
            rest@ == orig.subrange(out@.len() as int, orig.len() as int),
            forall|i: int| 0 <= i < out@.len() ==> retagged(orig[i], #[trigger] out@[i], source_id@),
        decreases rest@.len(),
    {
        let mut m = rest.remove(0);
        m.source_id = String::from_str(source_id);
        out.push(m);
    }
    out
}

/// The answer of one source to a search: its id and its outcome.
pub type SourceOutcome = (String, Result<Vec<Manga>, Error>);

/// Every entry of a successful outcome carries the id of its source.
pub open spec fn outcome_tagged(o: SourceOutcome) -> bool {
    o.1 matches Ok(v) ==> forall|k: int| 0 <= k < v@.len() ==> (#[trigger] v@[k]).source_id@ == o.0@
}

/// Tags the entries of each successful outcome with the id of its source,
/// keeping outcomes and entries in order; failures stay in place.
pub fn group_outcomes(outcomes: Vec<SourceOutcome>) -> (r: Vec<SourceOutcome>)
    ensures
        r@.len() == outcomes@.len(),
        forall|i: int|
            0 <= i < r@.len() ==> {
                &&& (#[trigger] r@[i]).0 == outcomes@[i].0
                &&& outcome_tagged(r@[i])
                &&& (outcomes@[i].1 is Ok <==> r@[i].1 is Ok)
                &&& (r@[i].1 matches Err(e) ==> outcomes@[i].1 == Err::<Vec<Manga>, Error>(e))
                &&& (r@[i].1 matches Ok(v) ==> outcomes@[i].1 matches Ok(w) && v@.len() == w@.len()
                    && forall|k: int| 0 <= k < v@.len() ==> retagged(w@[k], #[trigger] v@[k], r@[i].0@))
            },
{
    let ghost orig = outcomes@;
    let mut rest = outcomes;
    let mut out: Vec<SourceOutcome> = Vec::new();
    while rest.len() > 0
        invariant
            out@.len() + rest@.len() == orig.len(),
            rest@ == orig.subrange(out@.len() as int, orig.len() as int),
            forall|i: int|
                0 <= i < out@.len() ==> {
                    &&& (#[trigger] out@[i]).0 == orig[i].0
                    &&& outcome_tagged(out@[i])
                    &&& (orig[i].1 is Ok <==> out@[i].1 is Ok)
                    &&& (out@[i].1 matches Err(e) ==> orig[i].1 == Err::<Vec<Manga>, Error>(e))
                    &&& (out@[i].1 matches Ok(v) ==> orig[i].1 matches Ok(w) && v@.len() == w@.len()
                        && forall|k: int| 0 <= k < v@.len() ==> retagged(w@[k], #[trigger] v@[k], out@[i].0@))
                },
        decreases rest@.len(),
    {
        let (id, result) = rest.remove(0);
        let tagged = match result {
            Ok(v) => Ok(tag_source(v, id.as_str())),
            Err(e) => Err(e),
        };
        out.push((id, tagged));
    }
    out
}

/// The entries of the successful outcomes, in the order of the outcomes.
pub open spec fn successes(g: Seq<SourceOutcome>) -> Seq<Manga>
    decreases g.len(),
{
    if g.len() == 0 {
        seq![]
    } else {
        successes(g.drop_last()) + match g.last().1 {
            Ok(v) => v@,
            Err(_) => seq![],
        }
    }
}

/// Some outcome is a success.
pub open spec fn any_success(g: Seq<SourceOutcome>) -> bool {
    exists|i: int| 0 <= i < g.len() && (#[trigger] g[i]).1 is Ok
}

/// The failures as `id: message`, separated by `, `.
pub open spec fn failure_list(g: Seq<SourceOutcome>) -> Seq<char>
    decreases g.len(),
{
    if g.len() == 0 {
        seq![]
    } else {
        let p = failure_list(g.drop_last());
        match g.last().1 {
            Ok(_) => p,
            Err(e) => (if p.len() == 0 {
                p
            } else {
                p + ", "@
            }) + g.last().0@ + ": "@ + error_text(e),
        }
    }
}

/// Joins the outcomes of a search over many sources: the entries of every
/// success in order, or, when there are outcomes and every one failed, one
/// error that lists them all.
pub fn flatten_outcomes(grouped: Vec<SourceOutcome>) -> (r: Result<Vec<Manga>, Error>)
    ensures
        r is Err <==> (grouped@.len() > 0 && !any_success(grouped@)),
        r matches Ok(v) ==> v@ == successes(grouped@),
        r matches Err(e) ==> e matches Error::Other(m) && m@ == "All sources failed: "@
            + failure_list(grouped@),
{
    let ghost orig = grouped@;
    let count = grouped.len();
    let mut rest = grouped;
    let mut all: Vec<Manga> = Vec::new();
    let mut errors = String::new();
    let mut no_failure = true;
    let mut ok = false;
    let ghost mut i: int = 0;
    while rest.len() > 0
        invariant
            0 <= i <= orig.len(),
            rest@ == orig.subrange(i, orig.len() as int),
            all@ == successes(orig.subrange(0, i)),
            errors@ == failure_list(orig.subrange(0, i)),
            no_failure == (errors@.len() == 0),
            ok == any_success(orig.subrange(0, i)),
        decreases rest@.len(),
    {
        let (id, result) = rest.remove(0);
        let ghost pre = orig.subrange(0, i);
        let ghost nxt = orig.subrange(0, i + 1);
        proof {
            assert(nxt.drop_last() == pre);
            assert(nxt.last() == orig[i]);
        }
        match result {
            Ok(v) => {
                let mut v = v;
                all.append(&mut v);
                ok = true;
                proof {
                    assert(nxt[i] == orig[i]);
                }
            },
            Err(e) => {
                let ghost p = errors@;
                if !no_failure {
                    errors.append(", ");
                }
                let ghost q = errors@;
                errors.append(id.as_str());
                errors.append(": ");
                let text = e.message();
                errors.append(text.as_str());
                no_failure = false;
                proof {
                    reveal_strlit(": ");
                    assert(q == if p.len() == 0 { p } else { p + ", "@ });
                    assert(errors@ == q + id@ + ": "@ + error_text(e));
                    assert(errors@ == failure_list(nxt));
                    assert forall|k: int| 0 <= k < nxt.len() && (#[trigger] nxt[k]).1 is Ok
                        implies k < i && pre[k].1 is Ok by {
                        if k < i {
                            assert(pre[k] == nxt[k]);
                        }
                    }
                }
            },
        }
        proof {
            assert forall|k: int| 0 <= k < i implies pre[k] == nxt[k] by {}
            i = i + 1;
            assert(rest@ == orig.subrange(i, orig.len() as int));
        }
    }
    assert(orig.subrange(0, orig.len() as int) == orig);
    if !ok && count > 0 {
        let msg = join2("All sources failed: ", errors.as_str());
        Err(Error::Other(msg))
    } else {
        proof {
            if orig.len() == 0 {
                assert(!any_success(orig));
            }
        }
        Ok(all)
    }
}

/// Joining the outcomes of a search fails only when every source failed: with
/// one success, the result holds the successful entries in registration order,
/// each with the id of the source that produced it.
pub proof fn flatten_law(raw: Seq<SourceOutcome>, grouped: Seq<SourceOutcome>)
    requires
        any_success(raw),
        grouped.len() == raw.len(),
        forall|i: int| 0 <= i < grouped.len() ==> (#[trigger] grouped[i]).0 == raw[i].0 && (
            raw[i].1 is Ok <==> grouped[i].1 is Ok) && outcome_tagged(grouped[i]),
    ensures
        grouped.len() > 0 && any_success(grouped),
        forall|k: int| 0 <= k < successes(grouped).len() ==> exists|i: int|
            0 <= i < grouped.len() && (#[trigger] successes(grouped)[k]).source_id@ == grouped[i].0@,
{
    let i = choose|i: int| 0 <= i < raw.len() && (#[trigger] raw[i]).1 is Ok;
    assert(grouped[i].1 is Ok);
    lemma_successes_tagged(grouped);
}

proof fn lemma_successes_tagged(g: Seq<SourceOutcome>)
    requires
        forall|i: int| 0 <= i < g.len() ==> outcome_tagged(#[trigger] g[i]),
    ensures
        forall|k: int| 0 <= k < successes(g).len() ==> exists|i: int|
            0 <= i < g.len() && (#[trigger] successes(g)[k]).source_id@ == g[i].0@,
    decreases g.len(),
{
    if g.len() > 0 {
        let p = g.drop_last();
        assert forall|i: int| 0 <= i < p.len() implies outcome_tagged(#[trigger] p[i]) by {
            assert(p[i] == g[i]);
        }
        lemma_successes_tagged(p);
        let n = g.len() - 1;
        assert(outcome_tagged(g[n]));
        assert forall|k: int| 0 <= k < successes(g).len() implies exists|i: int|
            0 <= i < g.len() && (#[trigger] successes(g)[k]).source_id@ == g[i].0@ by {
            let sp = successes(p);
            if k < sp.len() {
                assert(successes(g)[k] == sp[k]);
                let i = choose|i: int| 0 <= i < p.len() && (#[trigger] sp[k]).source_id@ == p[i].0@;
                assert(p[i] == g[i]);
            } else {
                if let Ok(v) = g.last().1 {
                    assert(successes(g)[k] == v@[k - sp.len()]);
                }
            }
        }
    }
}

/// The error for a search from a source that is not registered.
pub fn unknown_source(source_id: &str) -> (r: Error)
    ensures
        r matches Error::NotFound(m) && m@ == "Source: "@ + source_id@,
{
    let m = join2("Source: ", source_id);
    Error::NotFound(m)
}

/// The outcome of a search from one source: its entries tagged with its id,
/// or its failure as it came.
pub fn from_source_outcome(source_id: &str, outcome: Result<Vec<Manga>, Error>) -> (r: Result<
    Vec<Manga>,
    Error,
>)
    ensures
        outcome is Ok <==> r is Ok,
        r matches Err(e) ==> outcome == Err::<Vec<Manga>, Error>(e),
        r matches Ok(v) ==> outcome matches Ok(w) && v@.len() == w@.len() && forall|k: int|
            0 <= k < v@.len() ==> retagged(w@[k], #[trigger] v@[k], source_id@),
{
    match outcome {
        Ok(v) => Ok(tag_source(v, source_id)),
        Err(e) => Err(e),
    }
}

} // verus!
