//! Writing a plan back into the manifest: every update of the plan, or none.

use vstd::prelude::*;
use vstd::string::*;
use vstd::utf8::encode_utf8;
use crate::error::CcuError;
use crate::manifest::{
    declared_in, dependencies_of, lemma_dependencies_of, well_formed, CargoTomlParser,
    ManifestView,
};
use crate::number::{decimal_repr, is_digit, lemma_decimal_round_trip};
use crate::planner::{lemma_plan_members, plan_spec, update_views, Update, UpdateView};
use crate::rewrite::{
    all_plain_chars, has_version, is_plain_char, lemma_has_version, lemma_plain_text,
    lemma_set_then_find, literal_of, quoted, set_version_spec,
};
use crate::semantic::{
    identifiers_ok, is_identifier_char, newer_spec, plain_version, render_spec, SemVerView,
};
use crate::text::{char_is_whitespace, trim_end_spec, trim_spec, trim_start_spec};
use crate::version::{
    apply_operator, extract_operator, extract_operator_spec, is_operator_char,
    lemma_render_reads_back, strip_operator_spec, to_comparable_spec,
};

verus! {

/// The version range that an update writes: the newest version behind the
/// operator that the dependency's range had.
pub open spec fn upgraded_spec(update: UpdateView) -> Seq<char> {
    extract_operator_spec(update.dependency.version) + render_spec(update.latest_version)
}

/// The manifest after one update, or the error that rewriting its entry gives.
pub open spec fn apply_one_spec(v: ManifestView, update: UpdateView) -> Result<
    ManifestView,
    CcuError,
> {
    set_version_spec(v, update.dependency.name, update.dependency.section, upgraded_spec(update))
}

/// The manifest after the updates of `plan`, one after the other, or the
/// error of the first one that fails.
pub open spec fn apply_plan_spec(v: ManifestView, plan: Seq<UpdateView>) -> Result<
    ManifestView,
    CcuError,
>
    decreases plan.len(),
{
    if plan.len() == 0 {
        Ok(v)
    } else {
        match apply_one_spec(v, plan[0]) {
            Ok(next) => apply_plan_spec(next, plan.drop_first()),
            Err(e) => Err(e),
        }
    }
}

/// The version range that `update` writes into the manifest.
pub fn upgraded_range(update: &Update) -> (range: String)
    ensures
        range@ == upgraded_spec(update@),
{
    let operator = extract_operator(update.dependency.version.as_str());
    let latest = update.latest_version.to_string();
    apply_operator(operator.as_str(), latest.as_str())
}

/// The manifest with one update written into it.
pub fn apply_one(document: &CargoTomlParser, update: &Update) -> (r: Result<
    CargoTomlParser,
    CcuError,
>)
    ensures
        well_formed(document@),
        r is Ok <==> has_version(
            document@.entries,
            update@.dependency.name,
            update@.dependency.section,
        ),
        match apply_one_spec(document@, update@) {
            Ok(v) => r is Ok && r->Ok_0@ == v && well_formed(v),
            Err(e) => r is Err && r->Err_0 == e,
        },
{
    let range = upgraded_range(update);
    document.with_dependency_version(
        update.dependency.name.as_str(),
        update.dependency.section,
        range.as_str(),
    )
}

/// Writes every update of `plan` into `document`: each entry gets the newest
/// version behind the operator its range had. If rewriting one entry fails,
/// the error of the first such entry is returned and `document` is left
/// exactly as it was, so that nothing half-done is ever written out.
pub fn apply_plan(document: &mut CargoTomlParser, plan: &Vec<Update>) -> (r: Result<(), CcuError>)
    ensures
        well_formed(old(document)@),
        well_formed(final(document)@),
        match apply_plan_spec(old(document)@, update_views(plan@)) {
            Ok(v) => r is Ok && final(document)@ == v,
            Err(e) => r is Err && r->Err_0 == e && final(document)@ == old(document)@,
        },
{
    proof {
        use_type_invariant(&*document);
        document.lemma_fits();
    }
    let ghost start = document@;
    let ghost views = update_views(plan@);
    let n: usize = plan.len();
    if n == 0 {
        return Ok(());
    }
    assert(views[0] == plan@[0]@);
    let mut work = match apply_one(document, &plan[0]) {
        Ok(next) => next,
        Err(e) => {
            return Err(e);
        },
    };
    let mut i: usize = 1;
    assert(views.drop_first() =~= views.subrange(1, n as int));
    while i < n
        invariant
            1 <= i <= n,
            n == plan@.len(),
            views == update_views(plan@),
            document@ == start,
            well_formed(start),
            well_formed(work@),
            apply_plan_spec(start, views) == apply_plan_spec(
                work@,
                views.subrange(i as int, n as int),
            ),
        decreases n - i,
    {
        proof {
            let rest = views.subrange(i as int, n as int);
            assert(rest[0] == plan@[i as int]@);
            assert(rest.drop_first() =~= views.subrange(i as int + 1, n as int));
        }
        work = match apply_one(&work, &plan[i]) {
            Ok(next) => next,
            Err(e) => {
                return Err(e);
            },
        };
        i = i + 1;
    }
    *document = work;
    Ok(())
}

/// An upgrade keeps the constraint style: the range that is written starts
/// with the same operator as the range it replaces, and what follows the
/// operator is the new version.
pub proof fn lemma_operator_preserved(old_range: Seq<char>, latest: SemVerView)
    ensures
        extract_operator_spec(extract_operator_spec(old_range) + render_spec(latest))
            == extract_operator_spec(old_range),
        strip_operator_spec(extract_operator_spec(old_range) + render_spec(latest))
            == render_spec(latest),
{
    let op = extract_operator_spec(old_range);
    let text = render_spec(latest);
    let major = decimal_repr(latest.major as nat);
    lemma_decimal_round_trip(latest.major as nat);
    assert(is_digit(major[0]));
    assert(text[0] == major[0]);
    assert(!is_operator_char(text[0]));
    assert(text[0] != '=');
    let range = op + text;
    if op.len() == 2 {
        assert(range[0] == op[0] && range[1] == op[1]);
        assert(extract_operator_spec(range) =~= op);
    } else if op.len() == 1 {
        assert(range[0] == op[0] && range[1] == text[0]);
        assert(extract_operator_spec(range) =~= op);
    } else {
        assert(range =~= text);
        assert(extract_operator_spec(range) =~= op);
    }
    assert(strip_operator_spec(range) =~= text);
}

/// Whether every update of `plan` can be written into `v`: its dependency is
/// an entry of `v` that has a version literal.
pub open spec fn applicable(v: ManifestView, plan: Seq<UpdateView>) -> bool {
    forall|k: int|
        0 <= k < plan.len() ==> has_version(
            v.entries,
            (#[trigger] plan[k]).dependency.name,
            plan[k].dependency.section,
        )
}

/// A plan whose every update can be written is written as a whole, and what
/// results is again a well-formed manifest for the same path.
pub proof fn lemma_apply_applicable(v: ManifestView, plan: Seq<UpdateView>)
    requires
        well_formed(v),
        applicable(v, plan),
    ensures
        apply_plan_spec(v, plan) is Ok,
        well_formed(apply_plan_spec(v, plan)->Ok_0),
        apply_plan_spec(v, plan)->Ok_0.path == v.path,
    decreases plan.len(),
{
    if plan.len() > 0 {
        let first = plan[0];
        let name = first.dependency.name;
        let section = first.dependency.section;
        let range = upgraded_spec(first);
        lemma_has_version(v, name, section);
        assert(set_version_spec(v, name, section, range) is Ok);
        lemma_set_then_find(v, name, section, range);
        let w = apply_one_spec(v, first)->Ok_0;
        let rest = plan.drop_first();
        assert forall|k: int| 0 <= k < rest.len() implies has_version(
            w.entries,
            (#[trigger] rest[k]).dependency.name,
            rest[k].dependency.section,
        ) by {
            assert(rest[k] == plan[k + 1]);
        }
        lemma_apply_applicable(w, rest);
    }
}

/// The text of a version whose identifiers are in order is not empty and
/// holds plain characters only, none of them whitespace at either end.
pub proof fn lemma_render_plain(v: SemVerView)
    requires
        identifiers_ok(v),
    ensures
        render_spec(v).len() > 0,
        all_plain_chars(render_spec(v)),
{
    let major = decimal_repr(v.major as nat);
    let minor = decimal_repr(v.minor as nat);
    let patch = decimal_repr(v.patch as nat);
    lemma_decimal_round_trip(v.major as nat);
    lemma_decimal_round_trip(v.minor as nat);
    lemma_decimal_round_trip(v.patch as nat);
    assert(all_plain_chars(major)) by {
        assert forall|i: int| 0 <= i < major.len() implies is_plain_char(#[trigger] major[i]) by {
            assert(is_digit(major[i]));
        }
    }
    assert(all_plain_chars(minor)) by {
        assert forall|i: int| 0 <= i < minor.len() implies is_plain_char(#[trigger] minor[i]) by {
            assert(is_digit(minor[i]));
        }
    }
    assert(all_plain_chars(patch)) by {
        assert forall|i: int| 0 <= i < patch.len() implies is_plain_char(#[trigger] patch[i]) by {
            assert(is_digit(patch[i]));
        }
    }
    assert(all_plain_chars(v.pre)) by {
        assert forall|i: int| 0 <= i < v.pre.len() implies is_plain_char(#[trigger] v.pre[i]) by {
            assert(is_identifier_char(v.pre[i]));
        }
    }
    assert(all_plain_chars(v.build)) by {
        assert forall|i: int| 0 <= i < v.build.len() implies is_plain_char(
            #[trigger] v.build[i],
        ) by {
            assert(is_identifier_char(v.build[i]));
        }
    }
    let numbers = major + seq!['.'] + minor + seq!['.'] + patch;
    assert(all_plain_chars(numbers));
    let pre = if v.pre.len() > 0 {
        seq!['-'] + v.pre
    } else {
        Seq::<char>::empty()
    };
    let build = if v.build.len() > 0 {
        seq!['+'] + v.build
    } else {
        Seq::<char>::empty()
    };
    assert(all_plain_chars(pre));
    assert(all_plain_chars(build));
    assert(render_spec(v) == numbers + pre + build);
    assert(all_plain_chars(numbers + pre));
}

/// The range that an update writes stands between quotation marks as it is,
/// without an escape, provided the identifiers of the newest version are in
/// order (as those of a version that the registry's answer gave are).
pub proof fn lemma_upgraded_plain(update: UpdateView)
    requires
        identifiers_ok(update.latest_version),
    ensures
        literal_of(upgraded_spec(update)) == quoted(encode_utf8(upgraded_spec(update))),
{
    let op = extract_operator_spec(update.dependency.version);
    let text = render_spec(update.latest_version);
    lemma_render_plain(update.latest_version);
    assert(all_plain_chars(op)) by {
        assert forall|i: int| 0 <= i < op.len() implies is_plain_char(#[trigger] op[i]) by {
            assert(is_operator_char(op[i]));
        }
    }
    assert(all_plain_chars(op + text));
    lemma_plain_text(op + text);
}

/// A plan made from the dependencies that a manifest declares can always be
/// written: applying it succeeds as a whole.
pub proof fn lemma_own_plan_applies(
    v: ManifestView,
    latest: Map<Seq<char>, SemVerView>,
    filters: Seq<Seq<char>>,
    rejects: Seq<Seq<char>>,
)
    requires
        well_formed(v),
    ensures
        apply_plan_spec(v, plan_spec(dependencies_of(v.entries), latest, filters, rejects))
            is Ok,
{
    let deps = dependencies_of(v.entries);
    let plan = plan_spec(deps, latest, filters, rejects);
    lemma_dependencies_of(v.entries, v.text.len() as int);
    assert forall|k: int| 0 <= k < plan.len() implies has_version(
        v.entries,
        (#[trigger] plan[k]).dependency.name,
        plan[k].dependency.section,
    ) by {
        lemma_plan_members(deps, latest, filters, rejects, k);
        let d = plan[k].dependency;
        assert(declared_in(d, v.entries));
    }
    lemma_apply_applicable(v, plan);
}

/// Trimming leaves a text alone that neither starts nor ends with whitespace.
pub proof fn lemma_trim_nothing(s: Seq<char>)
    requires
        s.len() > 0,
        !char_is_whitespace(s[0]),
        !char_is_whitespace(s.last()),
    ensures
        trim_spec(s) == s,
{
    assert(trim_start_spec(s) == s);
    assert(trim_end_spec(s) == s);
}

/// Once an update is written, its dependency is up to date: the range that
/// was written compares as the newest version, so that planning again finds
/// nothing newer for it. This holds for a newest version of three numbers.
pub proof fn lemma_upgraded_is_current(update: UpdateView)
    requires
        update.latest_version == plain_version(
            update.latest_version.major,
            update.latest_version.minor,
            update.latest_version.patch,
        ),
    ensures
        to_comparable_spec(upgraded_spec(update)) == Some(update.latest_version),
        !newer_spec(update.latest_version, update.latest_version),
{
    let latest = update.latest_version;
    let op = extract_operator_spec(update.dependency.version);
    let text = render_spec(latest);
    let range = op + text;
    lemma_render_plain(latest);
    lemma_operator_preserved(update.dependency.version, latest);
    lemma_render_reads_back(latest.major, latest.minor, latest.patch);
    let patch = decimal_repr(latest.patch as nat);
    let major = decimal_repr(latest.major as nat);
    lemma_decimal_round_trip(latest.patch as nat);
    lemma_decimal_round_trip(latest.major as nat);
    assert(text =~= major + seq!['.'] + decimal_repr(latest.minor as nat) + seq!['.'] + patch);
    assert(text.last() == patch.last());
    assert(is_digit(patch[patch.len() - 1]));
    assert(is_digit(major[0]));
    assert(text[0] == major[0]);
    assert(range.last() == text.last());
    if op.len() > 0 {
        assert(range[0] == op[0]);
        assert(is_operator_char(op[0]));
    } else {
        assert(range[0] == text[0]);
    }
    lemma_trim_nothing(range);
}

} // verus!
