//! Negotiation of the content encoding of a response.
//!
//! The client lists the encodings it accepts, each with a quality; the server prefers
//! gzip or brotli. The choice is a function of the two.

use crate::order::is_ranking;
use crate::order::lemma_insert_at;
use crate::order::lemma_sorted_by_permutes;
use crate::order::lemma_sorted_by_sorts;
use crate::order::sorted_by;
use crate::tile::Encoding;
use vstd::prelude::*;

verus! {

/// A content coding that HTTP knows.
#[derive(Clone, Copy, Debug, PartialEq, Eq, Structural)]
pub enum ContentEncoding {
    Identity,
    Brotli,
    Deflate,
    Gzip,
    Zstd,
}

/// A content coding as a header names it.
#[derive(Debug)]
pub enum HeaderEnc {
    /// One that HTTP knows.
    Known(ContentEncoding),
    /// Some other token.
    Unknown(String),
}

/// One choice in an `Accept-Encoding` header.
#[derive(Debug)]
pub enum Preference {
    /// The wildcard: any coding.
    Any,
    /// This coding.
    Specific(HeaderEnc),
}

/// A choice with its quality, in thousandths: 1000 stands for `q=1`, zero for "not
/// acceptable".
#[derive(Debug)]
pub struct QualityItem {
    pub item: Preference,
    pub quality: u16,
}

/// What a client sent as `Accept-Encoding`, in the order of the header.
#[derive(Debug)]
pub struct AcceptEncoding(pub Vec<QualityItem>);

/// The coding that the server would rather use.
#[derive(Clone, Copy, Debug, PartialEq, Eq, Structural)]
pub enum PreferredEncoding {
    Brotli,
    Gzip,
}

impl QualityItem {
    /// A copy of the item.
    pub fn duplicate(&self) -> (copy: QualityItem)
        ensures
            copy == *self,
    {
        let item = match &self.item {
            Preference::Any => Preference::Any,
            Preference::Specific(HeaderEnc::Known(enc)) => Preference::Specific(
                HeaderEnc::Known(*enc),
            ),
            Preference::Specific(HeaderEnc::Unknown(token)) => Preference::Specific(
                HeaderEnc::Unknown(token.clone()),
            ),
        };
        QualityItem { item, quality: self.quality }
    }
}

/// The weight that the server gives to an accepted coding: the preferred one first, then
/// the other of gzip and brotli, then zstd, deflate and any other token; identity, the
/// wildcard and whatever has quality zero weigh nothing.
pub open spec fn rank(qv: QualityItem, prefer: PreferredEncoding) -> u8 {
    if qv.quality == 0 {
        0
    } else {
        match qv.item {
            Preference::Any => 0,
            Preference::Specific(HeaderEnc::Unknown(_)) => 1,
            Preference::Specific(HeaderEnc::Known(enc)) => match enc {
                ContentEncoding::Identity => 0,
                ContentEncoding::Deflate => 2,
                ContentEncoding::Zstd => 3,
                ContentEncoding::Gzip => if prefer is Gzip {
                    5
                } else {
                    4
                },
                ContentEncoding::Brotli => if prefer is Brotli {
                    5
                } else {
                    4
                },
            },
        }
    }
}

/// The weight of `qv` under the preference `prefer_encoding`.
pub fn encoding_rank(qv: &QualityItem, prefer_encoding: PreferredEncoding) -> (weight: u8)
    ensures
        weight == rank(*qv, prefer_encoding),
{
    if qv.quality == 0 {
        return 0;
    }
    match prefer_encoding {
        PreferredEncoding::Gzip => match &qv.item {
            Preference::Specific(HeaderEnc::Known(ContentEncoding::Gzip)) => 5,
            Preference::Specific(HeaderEnc::Known(ContentEncoding::Brotli)) => 4,
            Preference::Specific(HeaderEnc::Known(ContentEncoding::Zstd)) => 3,
            Preference::Specific(HeaderEnc::Known(ContentEncoding::Deflate)) => 2,
            Preference::Any => 0,
            Preference::Specific(HeaderEnc::Known(ContentEncoding::Identity)) => 0,
            Preference::Specific(HeaderEnc::Unknown(_)) => 1,
        },
        PreferredEncoding::Brotli => match &qv.item {
            Preference::Specific(HeaderEnc::Known(ContentEncoding::Brotli)) => 5,
            Preference::Specific(HeaderEnc::Known(ContentEncoding::Gzip)) => 4,
            Preference::Specific(HeaderEnc::Known(ContentEncoding::Zstd)) => 3,
            Preference::Specific(HeaderEnc::Known(ContentEncoding::Deflate)) => 2,
            Preference::Any => 0,
            Preference::Specific(HeaderEnc::Known(ContentEncoding::Identity)) => 0,
            Preference::Specific(HeaderEnc::Unknown(_)) => 1,
        },
    }
}

/// Whether `a` goes before `b` when the two are ranked: it has the higher quality, or the
/// same quality and the higher weight.
pub open spec fn goes_before(a: QualityItem, b: QualityItem, prefer: PreferredEncoding) -> bool {
    a.quality > b.quality || (a.quality == b.quality && rank(a, prefer) > rank(b, prefer))
}

/// [`goes_before`] under the preference `prefer`, as a relation.
pub open spec fn ranking(prefer: PreferredEncoding) -> spec_fn(QualityItem, QualityItem) -> bool {
    |a: QualityItem, b: QualityItem| goes_before(a, b, prefer)
}

/// The items ordered by falling quality and, within one quality, by falling weight. Items
/// that agree in both stay in the order of the header.
pub open spec fn ranked(items: Seq<QualityItem>, prefer: PreferredEncoding) -> Seq<QualityItem> {
    sorted_by(items, ranking(prefer))
}

/// The ranked items are the items of the header, each as often as it stands there, and
/// none of them goes before an earlier one.
pub proof fn lemma_ranked(items: Seq<QualityItem>, prefer: PreferredEncoding)
    ensures
        ranked(items, prefer).to_multiset() == items.to_multiset(),
        ranked(items, prefer).len() == items.len(),
        forall|i: int, j: int|
            0 <= i < j < items.len() ==> !goes_before(
                #[trigger] ranked(items, prefer)[j],
                #[trigger] ranked(items, prefer)[i],
                prefer,
            ),
{
    lemma_sorted_by_permutes(items, ranking(prefer));
    assert(is_ranking(ranking(prefer)));
    lemma_sorted_by_sorts(items, ranking(prefer));
    assert forall|i: int, j: int| 0 <= i < j < items.len() implies !goes_before(
        #[trigger] ranked(items, prefer)[j],
        #[trigger] ranked(items, prefer)[i],
        prefer,
    ) by {
        assert(!ranking(prefer)(ranked(items, prefer)[j], ranked(items, prefer)[i]));
    }
}

/// Orders the accepted codings for the choice of one: by falling quality, then by falling
/// weight under `prefer_encoding`, keeping the order of the header otherwise.
pub fn ranked_accept_items(accept_enc: &AcceptEncoding, prefer_encoding: PreferredEncoding) -> (types:
    Vec<QualityItem>)
    ensures
        types@ == ranked(accept_enc.0@, prefer_encoding),
{
    let mut types: Vec<QualityItem> = Vec::new();
    let mut i: usize = 0;
    while i < accept_enc.0.len()
        invariant
            i <= accept_enc.0@.len(),
            types@.len() == i,
            types@ == ranked(accept_enc.0@.take(i as int), prefer_encoding),
        decreases accept_enc.0.len() - i,
    {
        let x = accept_enc.0[i].duplicate();
        let weight = encoding_rank(&x, prefer_encoding);
        let mut pos: usize = types.len();
        while pos > 0 && (x.quality > types[pos - 1].quality || (x.quality == types[pos
            - 1].quality && weight > encoding_rank(&types[pos - 1], prefer_encoding)))
            invariant
                pos <= types@.len(),
                weight == rank(x, prefer_encoding),
                forall|k: int|
                    pos <= k < types@.len() ==> goes_before(x, #[trigger] types@[k], prefer_encoding),
            decreases pos,
        {
            pos = pos - 1;
        }
        proof {
            lemma_insert_at(types@, x, ranking(prefer_encoding), pos as int);
            assert(accept_enc.0@.take(i as int + 1).drop_last() =~= accept_enc.0@.take(i as int));
        }
        types.insert(pos, x);
        i = i + 1;
    }
    assert(accept_enc.0@.take(i as int) =~= accept_enc.0@);
    types
}

/// Whether sending the content as it is would be acceptable: the first item that names
/// identity or is the wildcard decides by its quality, and without such an item it is.
pub open spec fn identity_acceptable(items: Seq<QualityItem>) -> bool
    decreases items.len(),
{
    if items.len() == 0 {
        true
    } else {
        match items[0].item {
            Preference::Any => items[0].quality > 0,
            Preference::Specific(HeaderEnc::Known(ContentEncoding::Identity)) => items[0].quality
                > 0,
            _ => identity_acceptable(items.drop_first()),
        }
    }
}

/// Whether identity is acceptable to a client that sent `items`, here in ranked order.
pub fn is_identity_acceptable(items: &Vec<QualityItem>) -> (acceptable: bool)
    ensures
        acceptable == identity_acceptable(items@),
{
    let mut i: usize = 0;
    assert(items@.skip(0) =~= items@);
    while i < items.len()
        invariant
            i <= items@.len(),
            identity_acceptable(items@) == identity_acceptable(items@.skip(i as int)),
        decreases items.len() - i,
    {
        assert(items@.skip(i as int)[0] == items@[i as int]);
        assert(items@.skip(i as int).drop_first() =~= items@.skip(i as int + 1));
        match &items[i].item {
            Preference::Any => {
                return items[i].quality > 0;
            },
            Preference::Specific(HeaderEnc::Known(ContentEncoding::Identity)) => {
                return items[i].quality > 0;
            },
            _ => {},
        }
        i = i + 1;
    }
    true
}

/// Whether the server can send content in the coding that `item` names: gzip, brotli and
/// identity are the ones it can.
pub open spec fn is_supported(item: Preference) -> bool {
    match item {
        Preference::Specific(HeaderEnc::Known(enc)) => {
            enc is Gzip || enc is Brotli || enc is Identity
        },
        _ => false,
    }
}

/// The coding of the first of `items` that has a quality above zero and that the server
/// can send.
pub open spec fn first_supported(items: Seq<QualityItem>) -> Option<ContentEncoding>
    decreases items.len(),
{
    if items.len() == 0 {
        None
    } else if items[0].quality > 0 && is_supported(items[0].item) {
        Some(items[0].item->Specific_0->Known_0)
    } else {
        first_supported(items.drop_first())
    }
}

/// The coding that the server prefers.
pub open spec fn preferred_coding(prefer: PreferredEncoding) -> ContentEncoding {
    match prefer {
        PreferredEncoding::Brotli => ContentEncoding::Brotli,
        PreferredEncoding::Gzip => ContentEncoding::Gzip,
    }
}

/// The coding to send in, for a client that sent `items`.
///
/// A client that lists nothing, or only the wildcard, gets the preferred coding. Any other
/// gets the first coding in ranked order that it accepts and the server can send; failing
/// that identity, unless the client refused it; failing that, none.
pub open spec fn negotiated(items: Seq<QualityItem>, prefer: PreferredEncoding) -> Option<
    ContentEncoding,
> {
    if items.len() == 0 || (items.len() == 1 && items[0].item is Any) {
        Some(preferred_coding(prefer))
    } else {
        match first_supported(ranked(items, prefer)) {
            Some(enc) => Some(enc),
            None => if identity_acceptable(ranked(items, prefer)) {
                Some(ContentEncoding::Identity)
            } else {
                None
            },
        }
    }
}

fn find_supported(items: &Vec<QualityItem>) -> (found: Option<ContentEncoding>)
    ensures
        found == first_supported(items@),
{
    let mut i: usize = 0;
    assert(items@.skip(0) =~= items@);
    while i < items.len()
        invariant
            i <= items@.len(),
            first_supported(items@) == first_supported(items@.skip(i as int)),
        decreases items.len() - i,
    {
        assert(items@.skip(i as int)[0] == items@[i as int]);
        assert(items@.skip(i as int).drop_first() =~= items@.skip(i as int + 1));
        if items[i].quality > 0 {
            match &items[i].item {
                Preference::Specific(HeaderEnc::Known(enc)) => {
                    match enc {
                        ContentEncoding::Gzip | ContentEncoding::Brotli | ContentEncoding::Identity => {
                            return Some(*enc);
                        },
                        _ => {},
                    }
                },
                _ => {},
            }
        }
        i = i + 1;
    }
    None
}

/// Chooses the coding of the response for a client that sent `accept_enc`.
pub fn negotiate(accept_enc: &AcceptEncoding, preferred_enc: PreferredEncoding) -> (chosen: Option<
    HeaderEnc,
>)
    ensures
        match negotiated(accept_enc.0@, preferred_enc) {
            Some(enc) => chosen == Some(HeaderEnc::Known(enc)),
            None => chosen is None,
        },
{
    let only_wildcard = accept_enc.0.len() == 1 && match &accept_enc.0[0].item {
        Preference::Any => true,
        _ => false,
    };
    if accept_enc.0.len() == 0 || only_wildcard {
        return match preferred_enc {
            PreferredEncoding::Brotli => Some(HeaderEnc::Known(ContentEncoding::Brotli)),
            PreferredEncoding::Gzip => Some(HeaderEnc::Known(ContentEncoding::Gzip)),
        };
    }
    let acceptable_items = ranked_accept_items(accept_enc, preferred_enc);
    let identity_acceptable = is_identity_acceptable(&acceptable_items);
    match find_supported(&acceptable_items) {
        Some(enc) => Some(HeaderEnc::Known(enc)),
        None => if identity_acceptable {
            Some(HeaderEnc::Known(ContentEncoding::Identity))
        } else {
            None
        },
    }
}

/// The tile encoding that a content coding stands for, where there is one.
pub open spec fn tile_encoding(val: ContentEncoding) -> Option<Encoding> {
    match val {
        ContentEncoding::Identity => Some(Encoding::Uncompressed),
        ContentEncoding::Gzip => Some(Encoding::Gzip),
        ContentEncoding::Brotli => Some(Encoding::Brotli),
        _ => None,
    }
}

/// The tile encoding that a content coding stands for, where there is one.
pub fn to_encoding(val: ContentEncoding) -> (encoding: Option<Encoding>)
    ensures
        encoding == tile_encoding(val),
{
    match val {
        ContentEncoding::Identity => Some(Encoding::Uncompressed),
        ContentEncoding::Gzip => Some(Encoding::Gzip),
        ContentEncoding::Brotli => Some(Encoding::Brotli),
        _ => None,
    }
}

/// Whether the server can answer with the coding of `item`: the client accepts it with a
/// quality above zero, and the server can send it.
pub open spec fn is_usable(item: QualityItem) -> bool {
    item.quality > 0 && is_supported(item.item)
}

/// The first usable item of `items` decides [`first_supported`].
pub proof fn lemma_first_supported(items: Seq<QualityItem>)
    ensures
        match first_supported(items) {
            Some(enc) => exists|k: int|
                {
                    &&& 0 <= k < items.len()
                    &&& is_usable(#[trigger] items[k])
                    &&& items[k].item == Preference::Specific(HeaderEnc::Known(enc))
                    &&& forall|j: int| 0 <= j < k ==> !is_usable(#[trigger] items[j])
                },
            None => forall|j: int| 0 <= j < items.len() ==> !is_usable(#[trigger] items[j]),
        },
    decreases items.len(),
{
    if items.len() > 0 {
        let rest = items.drop_first();
        lemma_first_supported(rest);
        if is_usable(items[0]) {
            assert(forall|j: int| 0 <= j < 0 ==> !is_usable(#[trigger] items[j]));
        } else {
            match first_supported(rest) {
                Some(enc) => {
                    let k = choose|k: int|
                        {
                            &&& 0 <= k < rest.len()
                            &&& is_usable(#[trigger] rest[k])
                            &&& rest[k].item == Preference::Specific(HeaderEnc::Known(enc))
                            &&& forall|j: int| 0 <= j < k ==> !is_usable(#[trigger] rest[j])
                        };
                    assert(items[k + 1] == rest[k]);
                    assert forall|j: int| 0 <= j < k + 1 implies !is_usable(
                        #[trigger] items[j],
                    ) by {
                        if j > 0 {
                            assert(items[j] == rest[j - 1]);
                        }
                    }
                },
                None => {
                    assert forall|j: int| 0 <= j < items.len() implies !is_usable(
                        #[trigger] items[j],
                    ) by {
                        if j > 0 {
                            assert(items[j] == rest[j - 1]);
                        }
                    }
                },
            }
        }
    }
}

/// Quality wins over the preference of the server, and the preference decides among equal
/// qualities: where the client lists more than the wildcard and the server answers with a
/// coding that the client named, that coding stands in the header with a quality above
/// zero, and no coding of the header that the server could use goes before it.
pub proof fn lemma_negotiated_is_best(items: Seq<QualityItem>, prefer: PreferredEncoding)
    requires
        items.len() > 0,
        !(items.len() == 1 && items[0].item is Any),
        first_supported(ranked(items, prefer)) is Some,
    ensures
        negotiated(items, prefer) == first_supported(ranked(items, prefer)),
        exists|k: int|
            {
                &&& 0 <= k < items.len()
                &&& is_usable(#[trigger] items[k])
                &&& items[k].item == Preference::Specific(
                    HeaderEnc::Known(negotiated(items, prefer).unwrap()),
                )
                &&& forall|j: int|
                    0 <= j < items.len() && is_usable(#[trigger] items[j]) ==> !goes_before(
                        items[j],
                        items[k],
                        prefer,
                    )
            },
{
    let r = ranked(items, prefer);
    lemma_ranked(items, prefer);
    lemma_first_supported(r);
    let enc = first_supported(r).unwrap();
    let m = choose|m: int|
        {
            &&& 0 <= m < r.len()
            &&& is_usable(#[trigger] r[m])
            &&& r[m].item == Preference::Specific(HeaderEnc::Known(enc))
            &&& forall|j: int| 0 <= j < m ==> !is_usable(#[trigger] r[j])
        };
    assert(items.contains(r[m])) by {
        assert(r.contains(r[m]));
        vstd::seq_lib::to_multiset_contains(r, r[m]);
        vstd::seq_lib::to_multiset_contains(items, r[m]);
    }
    let k = choose|k: int| 0 <= k < items.len() && items[k] == r[m];
    assert forall|j: int| 0 <= j < items.len() && is_usable(#[trigger] items[j]) implies !goes_before(
        items[j],
        items[k],
        prefer,
    ) by {
        assert(items.contains(items[j]));
        assert(r.contains(items[j])) by {
            vstd::seq_lib::to_multiset_contains(r, items[j]);
            vstd::seq_lib::to_multiset_contains(items, items[j]);
        }
        let n = choose|n: int| 0 <= n < r.len() && r[n] == items[j];
        if n < m {
            assert(!is_usable(r[n]));
        } else if n > m {
            assert(!goes_before(r[n], r[m], prefer));
        }
    }
}

} // verus!
