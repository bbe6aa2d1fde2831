//! What a read across streams selects.
//!
//! A read narrows the log along four axes, each matched on the stored shape
//! before the upcaster chain runs: the kinds to take, the streams to take,
//! `meta` pairs that must hold, and a prefix every stream name must start
//! with. Axes combine by AND.

use vstd::prelude::*;

use crate::error::{Error, Failure};
use crate::event;
use crate::json::{Json, Value};
use crate::text;

verus! {

/// Which events a cross-stream read or a subscription wants.
#[derive(Debug)]
#[non_exhaustive]
pub struct Filter {
    /// Kinds to take. `None` takes every kind; an empty list takes nothing.
    pub kinds: Option<Vec<String>>,
    /// Streams to take. `None` reads every stream; an empty list takes nothing.
    pub streams: Option<Vec<String>>,
    /// `meta` keys and the value each must hold. Every pair must hold; `None`
    /// and an empty list both place no condition.
    pub meta: Option<Vec<(String, Value)>>,
    /// A prefix every stream name must start with. `None` and the empty
    /// prefix both place no condition. Narrows `streams` rather than
    /// replacing it.
    pub stream_prefix: Option<String>,
}

/// What a [`Filter`] asks for.
#[verifier::ext_equal]
pub ghost struct Axes {
    pub kinds: Option<Seq<Seq<char>>>,
    pub streams: Option<Seq<Seq<char>>>,
    pub meta: Option<Seq<(Seq<char>, Json)>>,
    pub stream_prefix: Option<Seq<char>>,
}

/// The views of a list of `meta` pairs.
pub open spec fn pair_views(pairs: Seq<(String, Value)>) -> Seq<(Seq<char>, Json)> {
    Seq::new(pairs.len(), |i: int| (pairs[i].0@, pairs[i].1@))
}

/// Why the first of these `meta` pairs that cannot be matched on cannot, if
/// one cannot.
pub open spec fn pairs_refusal(pairs: Seq<(Seq<char>, Json)>) -> Option<Seq<char>>
    decreases pairs.len(),
{
    if pairs.len() == 0 {
        None
    } else if pairs[0].1 is Null {
        Some(
            "a filter on `meta."@ + pairs[0].0
                + "` cannot match `null`: a key the event does not carry matches nothing already, and an empty `kinds` or `streams` is how to select nothing on purpose"@,
        )
    } else if !event::scalar(pairs[0].1) {
        Some(
            "a filter on `meta."@ + pairs[0].0
                + "` must be a string, number or boolean, found "@ + event::type_text(pairs[0].1)
                + "; `meta` holds scalars, so there is nothing structured there to match"@,
        )
    } else {
        pairs_refusal(pairs.drop_first())
    }
}

impl Axes {
    /// Every event.
    pub open spec fn everything() -> Axes {
        Axes { kinds: None, streams: None, meta: None, stream_prefix: None }
    }

    /// Why the filter cannot be asked, if it cannot.
    pub open spec fn refusal(self) -> Option<Seq<char>> {
        match self.meta {
            Some(pairs) => pairs_refusal(pairs),
            None => None,
        }
    }

    /// Whether nothing at all can match.
    pub open spec fn nothing(self) -> bool {
        (self.kinds is Some && self.kinds->0.len() == 0) || (self.streams is Some
            && self.streams->0.len() == 0)
    }

    /// Whether no axis places a condition, so that every event is selected.
    pub open spec fn whole(self) -> bool {
        &&& self.kinds is None
        &&& self.streams is None
        &&& self.meta is None || self.meta->0.len() == 0
        &&& self.stream_prefix is None || self.stream_prefix->0.len() == 0
    }

    /// Whether an event of this stream, kind and `meta` is selected.
    pub open spec fn selects(
        self,
        stream: Seq<char>,
        kind: Seq<char>,
        meta: Map<Seq<char>, Json>,
    ) -> bool {
        &&& self.streams is Some ==> self.streams->0.contains(stream)
        &&& self.kinds is Some ==> self.kinds->0.contains(kind)
        &&& self.stream_prefix is Some ==> self.stream_prefix->0.is_prefix_of(stream)
        &&& self.meta is Some ==> forall|i: int|
            0 <= i < self.meta->0.len() ==> meta.contains_key((#[trigger] self.meta->0[i]).0)
                && meta[self.meta->0[i].0] == self.meta->0[i].1
    }
}

impl Filter {
    pub open spec fn view(&self) -> Axes {
        Axes {
            kinds: match self.kinds {
                Some(kinds) => Some(text::views(kinds@)),
                None => None,
            },
            streams: match self.streams {
                Some(streams) => Some(text::views(streams@)),
                None => None,
            },
            meta: match self.meta {
                Some(pairs) => Some(pair_views(pairs@)),
                None => None,
            },
            stream_prefix: match self.stream_prefix {
                Some(prefix) => Some(prefix@),
                None => None,
            },
        }
    }

    /// Every event.
    pub fn all() -> (filter: Self)
        ensures
            filter@ == Axes::everything(),
    {
        Filter { kinds: None, streams: None, meta: None, stream_prefix: None }
    }

    /// The events of these kinds.
    pub fn kinds(kinds: &[&str]) -> (filter: Self)
        ensures
            filter@ == (Axes {
                kinds: Some(text::slice_views(kinds@)),
                ..Axes::everything()
            }),
    {
        Filter { kinds: Some(text::owned(kinds)), streams: None, meta: None, stream_prefix: None }
    }

    /// Requires `key` under `meta` to hold `value`, beside whatever pairs
    /// were there: every pair must hold.
    pub fn meta(self, key: &str, value: Value) -> (filter: Self)
        ensures
            filter@ == (Axes {
                meta: Some(
                    (if self@.meta is Some {
                        self@.meta->0
                    } else {
                        Seq::empty()
                    }).push((key@, value@)),
                ),
                ..self@
            }),
    {
        let ghost before = self@;
        let ghost held = value@;
        let mut filter = self;
        let mut pairs: Vec<(String, Value)> = match filter.meta {
            Some(pairs) => pairs,
            None => Vec::new(),
        };
        let ghost had = pair_views(pairs@);
        pairs.push((key.to_owned(), value));
        proof {
            assert(pair_views(pairs@) =~= had.push((key@, held)));
            if before.meta is None {
                assert(had =~= Seq::<(Seq<char>, Json)>::empty());
            }
        }
        filter.meta = Some(pairs);
        filter
    }

    /// Checks that every `meta` value is a scalar the filter can match.
    pub fn validate(&self) -> (checked: Result<(), Error>)
        ensures
            checked is Ok <==> self@.refusal() is None,
            checked is Err ==> checked->Err_0@ == Failure::Validation(self@.refusal()->0),
    {
        let pairs = match &self.meta {
            Some(pairs) => pairs,
            None => {
                return Ok(());
            },
        };
        let ghost all = pair_views(pairs@);
        let mut i: usize = 0;
        proof {
            assert(all.skip(0) == all);
        }
        while i < pairs.len()
            invariant
                all == pair_views(pairs@),
                self@.meta == Some(all),
                i <= pairs@.len(),
                pairs_refusal(all) == pairs_refusal(all.skip(i as int)),
            decreases pairs@.len() - i,
        {
            proof {
                assert(all.skip(i as int)[0] == (pairs@[i as int].0@, pairs@[i as int].1@));
                assert(all.skip(i as int).drop_first() == all.skip(i + 1));
            }
            let pair = &pairs[i];
            match &pair.1 {
                Value::String(_) | Value::Number(_) | Value::Bool(_) => {},
                Value::Null => {
                    return Err(
                        Error::validation(
                            text::cat3(
                                "a filter on `meta.",
                                pair.0.as_str(),
                                "` cannot match `null`: a key the event does not carry matches nothing already, and an empty `kinds` or `streams` is how to select nothing on purpose",
                            ),
                        ),
                    );
                },
                other => {
                    return Err(
                        Error::validation(
                            text::cat5(
                                "a filter on `meta.",
                                pair.0.as_str(),
                                "` must be a string, number or boolean, found ",
                                event::json_type(other),
                                "; `meta` holds scalars, so there is nothing structured there to match",
                            ),
                        ),
                    );
                },
            }
            i += 1;
        }
        Ok(())
    }

    /// Restricts to one stream, in place of whatever set was there.
    pub fn stream(self, stream: &str) -> (filter: Self)
        ensures
            filter@ == (Axes { streams: Some(seq![stream@]), ..self@ }),
    {
        let mut filter = self;
        let mut streams: Vec<String> = Vec::new();
        streams.push(stream.to_owned());
        proof {
            assert(text::views(streams@) =~= seq![stream@]);
        }
        filter.streams = Some(streams);
        filter
    }

    /// Restricts to a set of streams. An empty set selects nothing.
    pub fn streams(self, streams: &[&str]) -> (filter: Self)
        ensures
            filter@ == (Axes { streams: Some(text::slice_views(streams@)), ..self@ }),
    {
        let mut filter = self;
        filter.streams = Some(text::owned(streams));
        filter
    }

    /// Restricts to streams whose name starts with `prefix`, in place of
    /// whatever prefix was there.
    pub fn stream_prefix(self, prefix: &str) -> (filter: Self)
        ensures
            filter@ == (Axes { stream_prefix: Some(prefix@), ..self@ }),
    {
        let mut filter = self;
        filter.stream_prefix = Some(prefix.to_owned());
        filter
    }

    /// Whether this filter can match nothing at all. A prefix never makes it
    /// so.
    pub fn selects_nothing(&self) -> (nothing: bool)
        ensures
            nothing == self@.nothing(),
    {
        let no_kind = match &self.kinds {
            Some(kinds) => kinds.len() == 0,
            None => false,
        };
        let no_stream = match &self.streams {
            Some(streams) => streams.len() == 0,
            None => false,
        };
        no_kind || no_stream
    }

    /// Whether no axis places a condition, so that every event is selected.
    pub fn selects_everything(&self) -> (everything: bool)
        ensures
            everything == self@.whole(),
    {
        let no_pair = match &self.meta {
            Some(pairs) => pairs.len() == 0,
            None => true,
        };
        let no_prefix = match &self.stream_prefix {
            Some(prefix) => prefix.as_str().is_empty(),
            None => true,
        };
        self.kinds.is_none() && self.streams.is_none() && no_pair && no_prefix
    }
}

impl Default for Filter {
    fn default() -> (filter: Self)
        ensures
            filter@ == Axes::everything(),
    {
        Filter::all()
    }
}

/// A copy of a list of `meta` pairs.
pub fn copied_pairs(pairs: &Vec<(String, Value)>) -> (copies: Vec<(String, Value)>)
    ensures
        pair_views(copies@) == pair_views(pairs@),
{
    let mut copies: Vec<(String, Value)> = Vec::new();
    let mut i: usize = 0;
    while i < pairs.len()
        invariant
            i <= pairs@.len(),
            copies@.len() == i,
            forall|j: int|
                0 <= j < i ==> (#[trigger] copies@[j]).0@ == pairs@[j].0@ && copies@[j].1@
                    == pairs@[j].1@,
        decreases pairs@.len() - i,
    {
        let pair = &pairs[i];
        copies.push((pair.0.clone(), pair.1.clone()));
        i += 1;
    }
    proof {
        assert(pair_views(copies@) =~= pair_views(pairs@));
    }
    copies
}

impl Clone for Filter {
    fn clone(&self) -> (copy: Self)
        ensures
            copy@ == self@,
    {
        Filter {
            kinds: match &self.kinds {
                Some(kinds) => Some(text::copied(kinds)),
                None => None,
            },
            streams: match &self.streams {
                Some(streams) => Some(text::copied(streams)),
                None => None,
            },
            meta: match &self.meta {
                Some(pairs) => Some(copied_pairs(pairs)),
                None => None,
            },
            stream_prefix: match &self.stream_prefix {
                Some(prefix) => Some(prefix.clone()),
                None => None,
            },
        }
    }
}

/// The next Unicode scalar value, stepping over the surrogate range.
pub open spec fn scalar_after(c: char) -> Option<char> {
    if c as u32 == 0x10FFFF {
        None
    } else if c as u32 == 0xD7FF {
        Some(0xE000u32 as char)
    } else {
        Some((c as u32 + 1) as char)
    }
}

/// The exclusive upper bound of a prefix: its last character moved on to the
/// next, and dropped first where it has none.
pub open spec fn prefix_bound(prefix: Seq<char>) -> Option<Seq<char>>
    decreases prefix.len(),
{
    if prefix.len() == 0 {
        None
    } else {
        match scalar_after(prefix.last()) {
            Some(next) => Some(prefix.drop_last().push(next)),
            None => prefix_bound(prefix.drop_last()),
        }
    }
}

/// The next Unicode scalar value after `c`, or `None` at the last.
fn next_scalar(c: char) -> (next: Option<char>)
    ensures
        next == scalar_after(c),
{
    let code: u32 = c as u32;
    proof {
        vstd::utf8::char_is_scalar(c);
    }
    if code == 0x10FFFF {
        None
    } else if code == 0xD7FF {
        char::from_u32(0xE000)
    } else {
        char::from_u32(code + 1)
    }
}

/// The least text that sorts above every name starting with `prefix`, or
/// `None` when there is no such text and the range is open at the top.
///
/// `stream >= prefix AND stream < bound` is then exactly "starts with
/// `prefix`", for a backend that compares names as bytes.
pub fn stream_prefix_bound(prefix: &str) -> (bound: Option<String>)
    ensures
        bound is Some <==> prefix_bound(prefix@) is Some,
        bound is Some ==> bound->0@ == prefix_bound(prefix@)->0,
{
    let mut chars: Vec<char> = text::chars_of(prefix);
    while chars.len() > 0
        invariant
            prefix_bound(prefix@) == prefix_bound(chars@),
        decreases chars@.len(),
    {
        let last: usize = chars.len() - 1;
        match next_scalar(chars[last]) {
            Some(next) => {
                let ghost before = chars@;
                chars.set(last, next);
                proof {
                    assert(chars@ == before.drop_last().push(next));
                }
                return Some(text::text_of(chars.as_slice()));
            },
            None => {
                let ghost before = chars@;
                chars.pop();
                proof {
                    assert(chars@ == before.drop_last());
                }
            },
        }
    }
    None
}

/// How a bound reads from the front: the first character stays as long as
/// something after it could be moved on.
proof fn bound_from_front(prefix: Seq<char>)
    requires
        prefix.len() > 0,
    ensures
        match prefix_bound(prefix.drop_first()) {
            Some(rest) => prefix_bound(prefix) == Some(seq![prefix[0]] + rest),
            None => match scalar_after(prefix[0]) {
                Some(next) => prefix_bound(prefix) == Some(seq![next]),
                None => prefix_bound(prefix) is None,
            },
        },
    decreases prefix.len(),
{
    let rest = prefix.drop_first();
    if prefix.len() == 1 {
        assert(rest.len() == 0);
        assert(prefix.drop_last() == Seq::<char>::empty());
        assert(prefix_bound(prefix.drop_last()) is None);
        if scalar_after(prefix[0]) is Some {
            assert(prefix.drop_last().push(scalar_after(prefix[0])->0) == seq![
                scalar_after(prefix[0])->0,
            ]);
        }
    } else {
        assert(rest.last() == prefix.last());
        assert(prefix.drop_last().drop_first() == rest.drop_last());
        match scalar_after(prefix.last()) {
            Some(next) => {
                assert(prefix.drop_last().push(next) == seq![prefix[0]] + rest.drop_last().push(
                    next,
                ));
            },
            None => {
                bound_from_front(prefix.drop_last());
            },
        }
    }
}

proof fn range_in_characters(prefix: Seq<char>, name: Seq<char>)
    ensures
        (!text::char_lt(name, prefix) && (prefix_bound(prefix) is Some ==> text::char_lt(
            name,
            prefix_bound(prefix)->0,
        ))) <==> prefix.is_prefix_of(name),
    decreases prefix.len(),
{
    if prefix.len() == 0 {
        assert(name.take(0) == prefix);
    } else if name.len() == 0 {
    } else {
        let p = prefix.drop_first();
        let n = name.drop_first();
        bound_from_front(prefix);
        range_in_characters(p, n);
        vstd::utf8::char_is_scalar(prefix[0]);
        vstd::utf8::char_is_scalar(name[0]);
        vstd::utf8::char_u32_cast(prefix[0], prefix[0] as u32);
        vstd::utf8::char_u32_cast(name[0], name[0] as u32);
        if prefix.is_prefix_of(name) {
            assert(name[0] == name.take(prefix.len() as int)[0]);
            assert(n.take(p.len() as int) == name.take(prefix.len() as int).drop_first());
        }
        if name[0] == prefix[0] && p.is_prefix_of(n) {
            assert(name.take(prefix.len() as int) == seq![name[0]] + n.take(p.len() as int));
            assert(prefix == seq![prefix[0]] + p);
        }
        match prefix_bound(p) {
            Some(rest) => {
                let bound = seq![prefix[0]] + rest;
                assert(bound[0] == prefix[0]);
                assert(bound.drop_first() == rest);
            },
            None => {
                if scalar_after(prefix[0]) is Some {
                    let next = scalar_after(prefix[0])->0;
                    let bound = seq![next];
                    assert(bound[0] == next);
                    assert(bound.drop_first() == Seq::<char>::empty());
                    assert(!text::char_lt(n, bound.drop_first()));
                    vstd::utf8::char_u32_cast(next, next as u32);
                }
            },
        }
    }
}

/// The range a prefix stands for is exactly the names that start with it:
/// bytewise, `prefix <= name < bound` holds when and only when the characters
/// of `prefix` are the first characters of `name`.
pub proof fn prefix_range_is_exact(prefix: Seq<char>, name: Seq<char>)
    ensures
        (!text::text_lt(name, prefix) && (prefix_bound(prefix) is Some ==> text::text_lt(
            name,
            prefix_bound(prefix)->0,
        ))) <==> prefix.is_prefix_of(name),
{
    range_in_characters(prefix, name);
    text::bytes_order_as_characters(name, prefix);
    if prefix_bound(prefix) is Some {
        text::bytes_order_as_characters(name, prefix_bound(prefix)->0);
    }
}

/// The bound is the least text above every name that starts with the prefix:
/// any text that is above all of them does not sort below the bound, and
/// there is such a text only where there is a bound.
pub proof fn prefix_bound_is_least(prefix: Seq<char>, above: Seq<char>)
    requires
        forall|name: Seq<char>| #[trigger]
            prefix.is_prefix_of(name) ==> text::text_lt(name, above),
    ensures
        prefix_bound(prefix) is Some,
        !text::text_lt(above, prefix_bound(prefix)->0),
{
    assert(prefix.take(prefix.len() as int) == prefix);
    assert(prefix.is_prefix_of(prefix));
    text::text_order(prefix, above);
    text::text_order(above, above);
    prefix_range_is_exact(prefix, above);
    if prefix_bound(prefix) is None || text::text_lt(above, prefix_bound(prefix)->0) {
        assert(prefix.is_prefix_of(above));
    }
}

/// A filter that can match nothing selects no event.
pub proof fn nothing_selects_nothing(
    axes: Axes,
    stream: Seq<char>,
    kind: Seq<char>,
    meta: Map<Seq<char>, Json>,
)
    requires
        axes.nothing(),
    ensures
        !axes.selects(stream, kind, meta),
{
}

/// A filter without a condition selects every event.
pub proof fn whole_selects_everything(
    axes: Axes,
    stream: Seq<char>,
    kind: Seq<char>,
    meta: Map<Seq<char>, Json>,
)
    requires
        axes.whole(),
    ensures
        axes.selects(stream, kind, meta),
{
    if axes.stream_prefix is Some {
        assert(stream.take(0) == axes.stream_prefix->0);
    }
}

/// What a filter selects, axis by axis: the streams and the kinds by being one
/// of those named, wherever in the list; the prefix by being what the stream's
/// name begins with; and every `meta` pair by the event holding that value
/// under that key. An axis that is not there asks for nothing.
pub proof fn filters_select_by_every_axis(
    axes: Axes,
    stream: Seq<char>,
    kind: Seq<char>,
    meta: Map<Seq<char>, Json>,
)
    ensures
        axes.selects(stream, kind, meta) <==> {
            &&& axes.streams is Some ==> exists|i: int|
                0 <= i < axes.streams->0.len() && #[trigger] axes.streams->0[i] == stream
            &&& axes.kinds is Some ==> exists|i: int|
                0 <= i < axes.kinds->0.len() && #[trigger] axes.kinds->0[i] == kind
            &&& axes.stream_prefix is Some ==> axes.stream_prefix->0.len() <= stream.len()
                && forall|i: int|
                    0 <= i < axes.stream_prefix->0.len() ==> #[trigger] axes.stream_prefix->0[i]
                        == stream[i]
            &&& axes.meta is Some ==> forall|i: int|
                0 <= i < axes.meta->0.len() ==> meta.contains_key((#[trigger] axes.meta->0[i]).0)
                    && meta[axes.meta->0[i].0] == axes.meta->0[i].1
        },
        Axes::everything().selects(stream, kind, meta),
{
    if axes.streams is Some {
        let named = axes.streams->0;
        if named.contains(stream) {
            let i = choose|i: int| 0 <= i < named.len() && named[i] == stream;
            assert(named[i] == stream);
        }
        if exists|i: int| 0 <= i < named.len() && #[trigger] named[i] == stream {
            assert(named.contains(stream));
        }
    }
    if axes.kinds is Some {
        let named = axes.kinds->0;
        if named.contains(kind) {
            let i = choose|i: int| 0 <= i < named.len() && named[i] == kind;
            assert(named[i] == kind);
        }
        if exists|i: int| 0 <= i < named.len() && #[trigger] named[i] == kind {
            assert(named.contains(kind));
        }
    }
    if axes.stream_prefix is Some {
        let prefix = axes.stream_prefix->0;
        if prefix.is_prefix_of(stream) {
            assert forall|i: int| 0 <= i < prefix.len() implies #[trigger] prefix[i] == stream[i] by {
                assert(stream.take(prefix.len() as int)[i] == stream[i]);
            }
        }
        if prefix.len() <= stream.len() && forall|i: int|
            0 <= i < prefix.len() ==> #[trigger] prefix[i] == stream[i] {
            assert(stream.take(prefix.len() as int) =~= prefix);
        }
    }
}

/// A filter can match nothing exactly when it names no kind at all, or no
/// stream at all; and it selects everything exactly when it names neither and
/// places no other condition.
pub proof fn empty_lists_select_nothing(axes: Axes)
    ensures
        axes.nothing() <==> (axes.kinds is Some && axes.kinds->0.len() == 0) || (axes.streams is Some
            && axes.streams->0.len() == 0),
        axes.whole() <==> {
            &&& axes.kinds is None
            &&& axes.streams is None
            &&& axes.meta is Some ==> axes.meta->0.len() == 0
            &&& axes.stream_prefix is Some ==> axes.stream_prefix->0.len() == 0
        },
        Axes::everything().whole(),
        !Axes::everything().nothing(),
{
}

/// A filter can be asked exactly when every `meta` value in it is a string, a
/// number or a boolean; and it is refused for the first that is not.
pub proof fn filters_match_scalars_only(axes: Axes)
    ensures
        axes.refusal() is None <==> (axes.meta is Some ==> forall|i: int|
            0 <= i < axes.meta->0.len() ==> (#[trigger] axes.meta->0[i]).1 is String
                || axes.meta->0[i].1 is Number || axes.meta->0[i].1 is Bool),
        axes.refusal() is Some ==> exists|i: int|
            {
                &&& 0 <= i < axes.meta->0.len()
                &&& axes.refusal() == (if (#[trigger] axes.meta->0[i]).1 is Null {
                    Some(
                        "a filter on `meta."@ + axes.meta->0[i].0
                            + "` cannot match `null`: a key the event does not carry matches nothing already, and an empty `kinds` or `streams` is how to select nothing on purpose"@,
                    )
                } else {
                    Some(
                        "a filter on `meta."@ + axes.meta->0[i].0
                            + "` must be a string, number or boolean, found "@ + event::type_text(
                            axes.meta->0[i].1,
                        )
                            + "; `meta` holds scalars, so there is nothing structured there to match"@,
                    )
                })
                &&& !(axes.meta->0[i].1 is String || axes.meta->0[i].1 is Number
                    || axes.meta->0[i].1 is Bool)
                &&& forall|j: int|
                    0 <= j < i ==> (#[trigger] axes.meta->0[j]).1 is String
                        || axes.meta->0[j].1 is Number || axes.meta->0[j].1 is Bool
            },
{
    if axes.meta is Some {
        refused_for_the_first(axes.meta->0);
        if axes.refusal() is Some {
            let at = first_refused_pair(axes.meta->0);
            assert(axes.meta->0[at].1 is Null || !event::scalar(axes.meta->0[at].1));
        }
    }
}

proof fn refused_for_the_first(pairs: Seq<(Seq<char>, Json)>)
    ensures
        pairs_refusal(pairs) is None <==> forall|i: int|
            0 <= i < pairs.len() ==> (#[trigger] pairs[i]).1 is String || pairs[i].1 is Number
                || pairs[i].1 is Bool,
    decreases pairs.len(),
{
    if pairs.len() > 0 {
        let rest = pairs.drop_first();
        refused_for_the_first(rest);
        if pairs_refusal(pairs) is None {
            assert forall|i: int| 0 <= i < pairs.len() implies (#[trigger] pairs[i]).1 is String
                || pairs[i].1 is Number || pairs[i].1 is Bool by {
                if i > 0 {
                    assert(rest[i - 1] == pairs[i]);
                }
            }
        }
        if forall|i: int|
            0 <= i < pairs.len() ==> (#[trigger] pairs[i]).1 is String || pairs[i].1 is Number
                || pairs[i].1 is Bool {
            assert(event::scalar(pairs[0].1));
            assert forall|i: int| 0 <= i < rest.len() implies (#[trigger] rest[i]).1 is String
                || rest[i].1 is Number || rest[i].1 is Bool by {
                assert(rest[i] == pairs[i + 1]);
            }
        }
    }
}

proof fn first_refused_pair(pairs: Seq<(Seq<char>, Json)>) -> (at: int)
    requires
        pairs_refusal(pairs) is Some,
    ensures
        0 <= at < pairs.len(),
        pairs_refusal(pairs) == (if pairs[at].1 is Null {
            Some(
                "a filter on `meta."@ + pairs[at].0
                    + "` cannot match `null`: a key the event does not carry matches nothing already, and an empty `kinds` or `streams` is how to select nothing on purpose"@,
            )
        } else {
            Some(
                "a filter on `meta."@ + pairs[at].0
                    + "` must be a string, number or boolean, found "@ + event::type_text(
                    pairs[at].1,
                ) + "; `meta` holds scalars, so there is nothing structured there to match"@,
            )
        }),
        !event::scalar(pairs[at].1),
        forall|j: int|
            0 <= j < at ==> (#[trigger] pairs[j]).1 is String || pairs[j].1 is Number
                || pairs[j].1 is Bool,
    decreases pairs.len(),
{
    if !event::scalar(pairs[0].1) {
        0
    } else {
        let rest = pairs.drop_first();
        let at = first_refused_pair(rest);
        assert forall|j: int| 0 <= j < at + 1 implies (#[trigger] pairs[j]).1 is String
            || pairs[j].1 is Number || pairs[j].1 is Bool by {
            if j > 0 {
                assert(rest[j - 1] == pairs[j]);
            }
        }
        at + 1
    }
}

/// A filter asks for what its fields say, and a list of pairs is viewed pair by
/// pair.
pub proof fn filters_ask_for_what_they_say(filter: Filter, pairs: Seq<(String, Value)>, i: int)
    ensures
        filter@.kinds is Some <==> filter.kinds is Some,
        filter.kinds matches Some(kinds) ==> filter@.kinds->0.len() == kinds@.len() && (0 <= i
            < kinds@.len() ==> filter@.kinds->0[i] == kinds@[i]@),
        filter@.streams is Some <==> filter.streams is Some,
        filter.streams matches Some(streams) ==> filter@.streams->0.len() == streams@.len() && (0
            <= i < streams@.len() ==> filter@.streams->0[i] == streams@[i]@),
        filter@.stream_prefix is Some <==> filter.stream_prefix is Some,
        filter.stream_prefix matches Some(prefix) ==> filter@.stream_prefix->0 == prefix@,
        filter@.meta is Some <==> filter.meta is Some,
        filter.meta matches Some(asked) ==> filter@.meta->0 == pair_views(asked@),
        pair_views(pairs).len() == pairs.len(),
        0 <= i < pairs.len() ==> pair_views(pairs)[i] == (pairs[i].0@, pairs[i].1@),
{
}

} // verus!
