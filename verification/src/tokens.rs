//! What a callback hands over: a user id and an access token, each read
//! from the `key=value` pairs of a query string.
use crate::text::{
    chars_of, free_of, join_with, lemma_split_on_append, lemma_split_on_join,
    lemma_split_on_whole, range_is, split_on, split_ranges,
};
use vstd::prelude::*;
use vstd::string::*;

verus! {

/// The two things a sign-in is waiting for.
pub enum Field {
    UserId,
    AccessToken,
}

impl Field {
    /// The query key under which the field arrives.
    pub open spec fn key(self) -> Seq<char> {
        match self {
            Field::UserId => "user_id"@,
            Field::AccessToken => "access_token"@,
        }
    }
}

/// What has been captured so far, as plain text.
pub struct TokenView {
    pub user_id: Option<Seq<char>>,
    pub access_token: Option<Seq<char>>,
}

impl TokenView {
    /// Nothing captured yet.
    pub open spec fn empty() -> TokenView {
        TokenView { user_id: None, access_token: None }
    }

    /// Both fields are present.
    pub open spec fn is_complete(self) -> bool {
        self.user_id is Some && self.access_token is Some
    }

    /// The field `f`.
    pub open spec fn get(self, f: Field) -> Option<Seq<char>> {
        match f {
            Field::UserId => self.user_id,
            Field::AccessToken => self.access_token,
        }
    }

    /// This record with field `f` set to `value`.
    pub open spec fn with(self, f: Field, value: Seq<char>) -> TokenView {
        match f {
            Field::UserId => TokenView { user_id: Some(value), access_token: self.access_token },
            Field::AccessToken => TokenView { user_id: self.user_id, access_token: Some(value) },
        }
    }
}

/// The text `key=value` for field `f`.
pub open spec fn spelled(f: Field, value: Seq<char>) -> Seq<char> {
    f.key().push('=') + value
}

/// What one pair of a query says: a field and its value, where the pair has
/// exactly one `=` and a known key stands before it; nothing otherwise.
pub open spec fn recognized(pair: Seq<char>) -> Option<(Field, Seq<char>)> {
    let parts = split_on(pair, '=');
    if parts.len() != 2 {
        None
    } else if parts[0] == Field::UserId.key() {
        Some((Field::UserId, parts[1]))
    } else if parts[0] == Field::AccessToken.key() {
        Some((Field::AccessToken, parts[1]))
    } else {
        None
    }
}

/// The pair sets field `f`.
pub open spec fn sets(pair: Seq<char>, f: Field) -> bool {
    recognized(pair) matches Some((g, _)) && g == f
}

/// The record after one pair: a recognized pair overwrites its field, any
/// other pair changes nothing.
pub open spec fn absorb_pair(t: TokenView, pair: Seq<char>) -> TokenView {
    match recognized(pair) {
        Some((f, value)) => t.with(f, value),
        None => t,
    }
}

/// The record after a run of pairs, taken from first to last.
pub open spec fn absorb_pairs(t: TokenView, pairs: Seq<Seq<char>>) -> TokenView
    decreases pairs.len(),
{
    if pairs.len() == 0 {
        t
    } else {
        absorb_pair(absorb_pairs(t, pairs.drop_last()), pairs.last())
    }
}

/// The record after a whole query string: its `&`-separated pairs in order.
pub open spec fn absorb(t: TokenView, query: Seq<char>) -> TokenView {
    absorb_pairs(t, split_on(query, '&'))
}

/// The record after a run of queries, one callback after another.
pub open spec fn absorb_all(t: TokenView, queries: Seq<Seq<char>>) -> TokenView
    decreases queries.len(),
{
    if queries.len() == 0 {
        t
    } else {
        absorb(absorb_all(t, queries.drop_last()), queries.last())
    }
}

/// The two keys differ, and neither holds a `=` or a `&`.
pub proof fn lemma_keys_are_plain()
    ensures
        Field::UserId.key() != Field::AccessToken.key(),
        !Field::UserId.key().contains('='),
        !Field::UserId.key().contains('&'),
        !Field::AccessToken.key().contains('='),
        !Field::AccessToken.key().contains('&'),
{
    reveal_strlit("user_id");
    reveal_strlit("access_token");
    let u = "user_id"@;
    let a = "access_token"@;
    assert(u.len() == 7 && a.len() == 12);
    assert forall|k: int| 0 <= k < u.len() implies u[k] != '=' && u[k] != '&' by {}
    assert forall|k: int| 0 <= k < a.len() implies a[k] != '=' && a[k] != '&' by {}
}

/// A pair written as `key=value`, with no further `=` in the value, is
/// recognized as that field with that value.
pub proof fn lemma_spelled_is_recognized(f: Field, value: Seq<char>)
    requires
        !value.contains('='),
    ensures
        recognized(spelled(f, value)) == Some((f, value)),
{
    lemma_keys_are_plain();
    lemma_split_on_append(f.key(), value, '=');
    lemma_split_on_whole(f.key(), '=');
    assert(split_on(spelled(f, value), '=') =~= seq![f.key(), value]);
}

/// A query without any `=` changes nothing; the empty query is one.
pub proof fn lemma_query_without_pairs_changes_nothing(t: TokenView, query: Seq<char>)
    requires
        !query.contains('='),
    ensures
        absorb(t, query) == t,
{
    let pairs = split_on(query, '&');
    assert forall|k: int| 0 <= k < pairs.len() implies recognized(#[trigger] pairs[k]) is None by {
        crate::text::lemma_piece_lies_within(query, '&', k);
        let piece = pairs[k];
        if piece.contains('=') {
            let j = choose|j: int| 0 <= j < piece.len() && piece[j] == '=';
            assert(query.contains(piece[j]));
        }
        lemma_split_on_whole(piece, '=');
    }
    lemma_unrecognized_pairs_change_nothing(t, pairs);
}

/// Pairs of which none is recognized leave the record as it was.
pub proof fn lemma_unrecognized_pairs_change_nothing(t: TokenView, pairs: Seq<Seq<char>>)
    requires
        forall|k: int| 0 <= k < pairs.len() ==> recognized(#[trigger] pairs[k]) is None,
    ensures
        absorb_pairs(t, pairs) == t,
    decreases pairs.len(),
{
    if pairs.len() > 0 {
        let front = pairs.drop_last();
        assert forall|k: int| 0 <= k < front.len() implies recognized(#[trigger] front[k])
            is None by {
            assert(front[k] == pairs[k]);
        }
        lemma_unrecognized_pairs_change_nothing(t, front);
        assert(recognized(pairs[pairs.len() - 1]) is None);
    }
}

/// A field that no pair sets keeps the value it had.
pub proof fn lemma_unset_field_is_kept(t: TokenView, pairs: Seq<Seq<char>>, f: Field)
    requires
        forall|k: int| 0 <= k < pairs.len() ==> !sets(#[trigger] pairs[k], f),
    ensures
        absorb_pairs(t, pairs).get(f) == t.get(f),
    decreases pairs.len(),
{
    if pairs.len() > 0 {
        let front = pairs.drop_last();
        assert forall|k: int| 0 <= k < front.len() implies !sets(#[trigger] front[k], f) by {
            assert(front[k] == pairs[k]);
        }
        lemma_unset_field_is_kept(t, front, f);
        assert(!sets(pairs[pairs.len() - 1], f));
    }
}

/// The last pair that sets a field decides it: whatever came before, and
/// whatever the record held, the field ends up with that pair's value.
pub proof fn lemma_last_pair_wins(
    t: TokenView,
    pairs: Seq<Seq<char>>,
    i: int,
    f: Field,
    value: Seq<char>,
)
    requires
        0 <= i < pairs.len(),
        recognized(pairs[i]) == Some((f, value)),
        forall|k: int| i < k < pairs.len() ==> !sets(#[trigger] pairs[k], f),
    ensures
        absorb_pairs(t, pairs).get(f) == Some(value),
    decreases pairs.len(),
{
    let front = pairs.drop_last();
    if i < pairs.len() - 1 {
        assert(front[i] == pairs[i]);
        assert forall|k: int| i < k < front.len() implies !sets(#[trigger] front[k], f) by {
            assert(front[k] == pairs[k]);
        }
        lemma_last_pair_wins(t, front, i, f, value);
        assert(!sets(pairs[pairs.len() - 1], f));
    }
}

/// A field once present stays present: absorbing a query never clears it.
pub proof fn lemma_absorb_keeps_presence(t: TokenView, query: Seq<char>, f: Field)
    requires
        t.get(f) is Some,
    ensures
        absorb(t, query).get(f) is Some,
{
    lemma_pairs_keep_presence(t, split_on(query, '&'), f);
}

/// A field once present stays present over any run of pairs.
pub proof fn lemma_pairs_keep_presence(t: TokenView, pairs: Seq<Seq<char>>, f: Field)
    requires
        t.get(f) is Some,
    ensures
        absorb_pairs(t, pairs).get(f) is Some,
    decreases pairs.len(),
{
    if pairs.len() > 0 {
        lemma_pairs_keep_presence(t, pairs.drop_last(), f);
    }
}

/// A query that carries `user_id=a` and `access_token=b` once each, in
/// either order, among any number of pairs that are malformed or concern
/// other keys, leaves the record holding exactly `a` and `b`.
pub proof fn lemma_both_keys_resolve(
    t: TokenView,
    pairs: Seq<Seq<char>>,
    i: int,
    j: int,
    a: Seq<char>,
    b: Seq<char>,
)
    requires
        0 <= i < pairs.len(),
        0 <= j < pairs.len(),
        pairs[i] == spelled(Field::UserId, a),
        pairs[j] == spelled(Field::AccessToken, b),
        !a.contains('=') && !a.contains('&'),
        !b.contains('=') && !b.contains('&'),
        forall|k: int|
            0 <= k < pairs.len() && k != i && k != j ==> recognized(#[trigger] pairs[k]) is None
                && !pairs[k].contains('&'),
    ensures
        absorb(t, join_with(pairs, '&')) == (TokenView { user_id: Some(a), access_token: Some(b) }),
{
    lemma_keys_are_plain();
    lemma_spelled_is_recognized(Field::UserId, a);
    lemma_spelled_is_recognized(Field::AccessToken, b);
    assert(free_of(pairs, '&')) by {
        assert forall|k: int| 0 <= k < pairs.len() implies !(#[trigger] pairs[k]).contains(
            '&',
        ) by {
            if k == i {
                lemma_spelled_is_plain(Field::UserId, a);
            } else if k == j {
                lemma_spelled_is_plain(Field::AccessToken, b);
            }
        }
    }
    lemma_split_on_join(pairs, '&');
    lemma_last_pair_wins(t, pairs, i, Field::UserId, a);
    lemma_last_pair_wins(t, pairs, j, Field::AccessToken, b);
}

/// A spelled pair holds no `&` when its value holds none.
pub proof fn lemma_spelled_is_plain(f: Field, value: Seq<char>)
    requires
        !value.contains('&'),
    ensures
        !spelled(f, value).contains('&'),
{
    lemma_keys_are_plain();
    let text = spelled(f, value);
    if text.contains('&') {
        let k = choose|k: int| 0 <= k < text.len() && text[k] == '&';
        if k < f.key().len() {
            assert(f.key()[k] == '&');
        } else if k == f.key().len() {
            assert(text[k] == '=');
        } else {
            assert(value[k - f.key().len() - 1] == '&');
        }
    }
}

/// However many callbacks arrive, a field that none of their pairs sets is
/// still missing afterwards, so the record never becomes complete.
pub proof fn lemma_missing_key_never_completes(queries: Seq<Seq<char>>, f: Field)
    requires
        forall|q: int, k: int|
            0 <= q < queries.len() && 0 <= k < split_on(queries[q], '&').len() ==> !sets(
                #[trigger] split_on(queries[q], '&')[k],
                f,
            ),
    ensures
        absorb_all(TokenView::empty(), queries).get(f) is None,
        !absorb_all(TokenView::empty(), queries).is_complete(),
    decreases queries.len(),
{
    if queries.len() > 0 {
        let front = queries.drop_last();
        assert forall|q: int, k: int|
            0 <= q < front.len() && 0 <= k < split_on(front[q], '&').len() implies !sets(
            #[trigger] split_on(front[q], '&')[k],
            f,
        ) by {
            assert(front[q] == queries[q]);
        }
        lemma_missing_key_never_completes(front, f);
        let last = queries[queries.len() - 1];
        assert forall|k: int| 0 <= k < split_on(last, '&').len() implies !sets(
            #[trigger] split_on(last, '&')[k],
            f,
        ) by {}
        lemma_unset_field_is_kept(absorb_all(TokenView::empty(), front), split_on(last, '&'), f);
    }
}

/// Of two callbacks that both set a field, the later one decides it: the
/// field ends up as the later callback alone would have left it, whole, with
/// nothing of the earlier value in it.
pub proof fn lemma_later_callback_wins(
    t: TokenView,
    earlier: Seq<char>,
    later: Seq<char>,
    f: Field,
)
    requires
        exists|k: int| 0 <= k < split_on(later, '&').len() && sets(split_on(later, '&')[k], f),
    ensures
        absorb(absorb(t, earlier), later).get(f) is Some,
        absorb(absorb(t, earlier), later).get(f) == absorb(TokenView::empty(), later).get(f),
{
    let pairs = split_on(later, '&');
    let i = last_setter(pairs, f, pairs.len() as int);
    let value = recognized(pairs[i]).unwrap().1;
    lemma_last_pair_wins(absorb(t, earlier), pairs, i, f, value);
    lemma_last_pair_wins(TokenView::empty(), pairs, i, f, value);
}

/// The index of the last pair before `end` that sets `f`.
proof fn last_setter(pairs: Seq<Seq<char>>, f: Field, end: int) -> (i: int)
    requires
        0 <= end <= pairs.len(),
        exists|k: int| 0 <= k < end && sets(pairs[k], f),
    ensures
        0 <= i < end,
        sets(pairs[i], f),
        forall|k: int| i < k < end ==> !sets(#[trigger] pairs[k], f),
    decreases end,
{
    if sets(pairs[end - 1], f) {
        end - 1
    } else {
        let k = choose|k: int| 0 <= k < end && sets(pairs[k], f);
        assert(k < end - 1);
        last_setter(pairs, f, end - 1)
    }
}

/// The outcome of a completed sign-in.
#[derive(Debug)]
pub struct AuthInfo {
    pub user_id: String,
    pub access_token: String,
}

/// An `AuthInfo` as plain text.
pub struct AuthInfoView {
    pub user_id: Seq<char>,
    pub access_token: Seq<char>,
}

impl View for AuthInfo {
    type V = AuthInfoView;

    open spec fn view(&self) -> AuthInfoView {
        AuthInfoView { user_id: self.user_id@, access_token: self.access_token@ }
    }
}

/// The fields captured from callbacks during one sign-in session.
#[derive(Debug)]
pub struct TokenState {
    pub user_id: Option<String>,
    pub access_token: Option<String>,
}

impl View for TokenState {
    type V = TokenView;

    open spec fn view(&self) -> TokenView {
        TokenView {
            user_id: match self.user_id {
                Some(s) => Some(s@),
                None => None,
            },
            access_token: match self.access_token {
                Some(s) => Some(s@),
                None => None,
            },
        }
    }
}

impl TokenState {
    /// A record with both fields empty, as a session starts with.
    pub fn new() -> (tokens: Self)
        ensures
            tokens@ == TokenView::empty(),
    {
        TokenState { user_id: None, access_token: None }
    }

    /// Whether both fields have arrived.
    pub fn is_complete(&self) -> (complete: bool)
        ensures
            complete == self@.is_complete(),
    {
        self.user_id.is_some() && self.access_token.is_some()
    }

    /// Reads a callback's query string into the record.
    pub fn absorb_query(&mut self, query: &str)
        ensures
            final(self)@ == absorb(old(self)@, query@),
    {
        let ghost before = self@;
        let ghost pairs = split_on(query@, '&');
        let chars = chars_of(query);
        proof {
            assert(chars@.subrange(0, chars@.len() as int) =~= chars@);
        }
        let pair_ranges = split_ranges(&chars, 0, chars.len(), '&');
        let mut idx: usize = 0;
        proof {
            assert(pairs.take(0) =~= Seq::<Seq<char>>::empty());
        }
        while idx < pair_ranges.len()
            invariant
                chars@ == query@,
                pairs == split_on(query@, '&'),
                crate::text::marks(chars@, pair_ranges@, pairs),
                idx <= pair_ranges.len(),
                self@ == absorb_pairs(before, pairs.take(idx as int)),
            decreases pair_ranges.len() - idx,
        {
            let (lo, hi) = pair_ranges[idx];
            let ghost pair = pairs[idx as int];
            let ghost parts = split_on(pair, '=');
            proof {
                assert(pair_ranges@[idx as int] == (lo, hi));
                assert(chars@.subrange(lo as int, hi as int) == pair);
                assert(pairs.take(idx + 1).drop_last() =~= pairs.take(idx as int));
                assert(pairs.take(idx + 1).last() == pair);
            }
            let part_ranges = split_ranges(&chars, lo, hi, '=');
            if part_ranges.len() == 2 {
                let (key_lo, key_hi) = part_ranges[0];
                let (value_lo, value_hi) = part_ranges[1];
                proof {
                    assert(part_ranges@[0] == (key_lo, key_hi));
                    assert(part_ranges@[1] == (value_lo, value_hi));
                    assert(chars@.subrange(key_lo as int, key_hi as int) == parts[0]);
                    assert(chars@.subrange(value_lo as int, value_hi as int) == parts[1]);
                }
                if range_is(&chars, key_lo, key_hi, "user_id") {
                    self.user_id = Some(query.substring_char(value_lo, value_hi).to_owned());
                } else if range_is(&chars, key_lo, key_hi, "access_token") {
                    self.access_token = Some(query.substring_char(value_lo, value_hi).to_owned());
                }
            }
            idx = idx + 1;
        }
        proof {
            assert(pairs.take(idx as int) =~= pairs);
        }
    }

    /// A copy of the record as it stands, for a reader that must not hold
    /// on to the record itself.
    pub fn snapshot(&self) -> (copy: Self)
        ensures
            copy@ == self@,
    {
        TokenState {
            user_id: match &self.user_id {
                Some(user_id) => Some(user_id.clone()),
                None => None,
            },
            access_token: match &self.access_token {
                Some(access_token) => Some(access_token.clone()),
                None => None,
            },
        }
    }

    /// The captured pair of values, once both are there.
    pub fn credentials(&self) -> (found: Option<AuthInfo>)
        ensures
            found is Some <==> self@.is_complete(),
            found matches Some(info) ==> Some(info@.user_id) == self@.user_id && Some(
                info@.access_token,
            ) == self@.access_token,
    {
        match (&self.user_id, &self.access_token) {
            (Some(user_id), Some(access_token)) => Some(
                AuthInfo { user_id: user_id.clone(), access_token: access_token.clone() },
            ),
            _ => None,
        }
    }
}

} // verus!
