use vstd::prelude::*;
use crate::pipeline::{select, Pipeline, StatsView};
use crate::record::Record;
use crate::source::records_view;
use crate::user::{generate_user, user_of, username_error, User, UserView};

verus! {

/// The transforms that a step can name.
#[derive(Debug, Clone, Copy, PartialEq, Eq, Structural)]
pub enum TransformFn {
    GenerateUser,
    Capitalize,
    Lowercase,
}

/// The filters that a step can name.
#[derive(Debug, Clone, Copy, PartialEq, Eq, Structural)]
pub enum FilterFn {
    IsValid,
}

/// Whether two texts are equal.
pub(crate) fn same_text(a: &str, b: &str) -> (r: bool)
    ensures
        r == (a@ == b@),
{
    a.to_owned() == b.to_owned()
}

/// The transform called `name`, if any.
pub open spec fn transform_named(name: Seq<char>) -> Option<TransformFn> {
    if name == "generate_user"@ {
        Some(TransformFn::GenerateUser)
    } else if name == "capitalize"@ {
        Some(TransformFn::Capitalize)
    } else if name == "lowercase"@ {
        Some(TransformFn::Lowercase)
    } else {
        None
    }
}

/// The filter called `name`, if any.
pub open spec fn filter_named(name: Seq<char>) -> Option<FilterFn> {
    if name == "is_valid"@ {
        Some(FilterFn::IsValid)
    } else {
        None
    }
}

/// The text that `str::to_uppercase` makes of `s`.
pub uninterp spec fn upper_of(s: Seq<char>) -> Seq<char>;

/// The text that `str::to_lowercase` makes of `s`.
pub uninterp spec fn lower_of(s: Seq<char>) -> Seq<char>;

/// Relies on str::to_uppercase: the result depends on the characters alone.
#[verifier::external_body]
fn to_upper(s: &String) -> (r: String)
    ensures
        r@ == upper_of(s@),
{
    s.to_uppercase()
}

/// Relies on str::to_lowercase: the result depends on the characters alone.
#[verifier::external_body]
fn to_lower(s: &String) -> (r: String)
    ensures
        r@ == lower_of(s@),
{
    s.to_lowercase()
}

/// What an entity transform does to one entity: its first name upper-cased
/// or lower-cased, the rest kept.
pub open spec fn transform_user(t: TransformFn, u: UserView) -> UserView {
    match t {
        TransformFn::Capitalize => UserView { first_name: upper_of(u.first_name), ..u },
        TransformFn::Lowercase => UserView { first_name: lower_of(u.first_name), ..u },
        TransformFn::GenerateUser => u,
    }
}

pub open spec fn users_view(s: Seq<User>) -> Seq<UserView> {
    s.map_values(|u: User| u@)
}

/// For each entity, whether it passes validation.
pub open spec fn valid_flags(s: Seq<UserView>) -> Seq<bool> {
    Seq::new(s.len(), |i: int| username_error(s[i].username) is None)
}

/// Selecting and then viewing is viewing and then selecting.
pub proof fn lemma_select_users_view(s: Seq<User>, keep: Seq<bool>)
    requires
        keep.len() == s.len(),
    ensures
        users_view(select(s, keep)) == select(users_view(s), keep),
    decreases s.len(),
{
    if s.len() > 0 {
        lemma_select_users_view(s.drop_last(), keep.subrange(0, s.len() - 1));
        assert(users_view(s.drop_last()) =~= users_view(s).drop_last());
        let rest = select(s.drop_last(), keep.subrange(0, s.len() - 1));
        if keep[s.len() - 1] {
            assert(users_view(rest.push(s.last())) =~= users_view(rest).push(s.last()@));
        }
    }
}

impl TransformFn {
    /// The transform called `name`: generate_user, capitalize or lowercase.
    pub fn from_str(name: &str) -> (r: Option<TransformFn>)
        ensures
            r == transform_named(name@),
    {
        proof {
            reveal_strlit("generate_user");
            reveal_strlit("capitalize");
            reveal_strlit("lowercase");
        }
        if same_text(name, "generate_user") {
            Some(TransformFn::GenerateUser)
        } else if same_text(name, "capitalize") {
            Some(TransformFn::Capitalize)
        } else if same_text(name, "lowercase") {
            Some(TransformFn::Lowercase)
        } else {
            None
        }
    }

    /// Turns rows into entities; only `GenerateUser` applies to rows.
    pub fn apply_to_csv(self, pipeline: Pipeline<Record>) -> (r: Pipeline<User>)
        requires
            self == TransformFn::GenerateUser,
        ensures
            users_view(r.data@) == records_view(pipeline.data@).map_values(|f: Seq<Seq<char>>| user_of(f)),
            r.stats@ == (StatsView { transformed: r.data@.len(), ..pipeline.stats@ }),
    {
        let r = pipeline.transform(generate_user);
        assert(users_view(r.data@) =~= records_view(pipeline.data@).map_values(|f: Seq<Seq<char>>| user_of(f)));
        r
    }

    /// Applies an entity transform to every entity; `GenerateUser` applies
    /// only to rows.
    pub fn apply_to_user(self, pipeline: Pipeline<User>) -> (r: Pipeline<User>)
        requires
            self != TransformFn::GenerateUser,
        ensures
            users_view(r.data@) == users_view(pipeline.data@).map_values(|u: UserView| transform_user(self, u)),
            r.stats@ == (StatsView { transformed: r.data@.len(), ..pipeline.stats@ }),
    {
        let r = match self {
            TransformFn::Capitalize => {
                pipeline.transform(|u: User| -> (v: User)
                    ensures
                        v@ == transform_user(TransformFn::Capitalize, u@),
                    {
                        let first_name = to_upper(&u.first_name);
                        User { username: u.username, identifier: u.identifier, first_name, last_name: u.last_name }
                    })
            },
            _ => {
                pipeline.transform(|u: User| -> (v: User)
                    ensures
                        v@ == transform_user(TransformFn::Lowercase, u@),
                    {
                        let first_name = to_lower(&u.first_name);
                        User { username: u.username, identifier: u.identifier, first_name, last_name: u.last_name }
                    })
            },
        };
        assert(users_view(r.data@) =~= users_view(pipeline.data@).map_values(|u: UserView| transform_user(self, u)));
        r
    }
}

impl FilterFn {
    /// The filter called `name`: is_valid.
    pub fn from_str(name: &str) -> (r: Option<FilterFn>)
        ensures
            r == filter_named(name@),
    {
        proof {
            reveal_strlit("is_valid");
        }
        if same_text(name, "is_valid") {
            Some(FilterFn::IsValid)
        } else {
            None
        }
    }

    /// Keeps the entities that pass validation, in order.
    pub fn apply_to_user(self, pipeline: Pipeline<User>) -> (r: Pipeline<User>)
        ensures
            r.data@ == select(pipeline.data@, valid_flags(users_view(pipeline.data@))),
            users_view(r.data@) == select(users_view(pipeline.data@), valid_flags(users_view(pipeline.data@))),
            r.stats@ == (StatsView { filtered: r.data@.len(), ..pipeline.stats@ }),
    {
        let ghost data = pipeline.data@;
        let pred = |u: &User| -> (b: bool)
            ensures
                b == (username_error(u.username@) is None),
            { u.is_valid().is_ok() };
        let r = pipeline.filter(pred);
        let ghost keep = choose|keep: Seq<bool>|
            {
                &&& keep.len() == data.len()
                &&& forall|i: int| 0 <= i < keep.len() ==> pred.ensures((&data[i],), #[trigger] keep[i])
                &&& r.data@ == select(data, keep)
            };
        assert(keep =~= valid_flags(users_view(data)));
        proof {
            lemma_select_users_view(data, valid_flags(users_view(data)));
        }
        r
    }
}

} // verus!
