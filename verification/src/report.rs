//! The report of a change-set: one aligned line for each change.

use crate::version::{change_views, ChangeView, PkgChange};
use vstd::prelude::*;
use vstd::string::*;

verus! {

/// `n` spaces.
pub open spec fn spaces(n: int) -> Seq<char> {
    Seq::new(
        if n > 0 {
            n as nat
        } else {
            0
        },
        |i: int| ' ',
    )
}

/// The greatest of `lens`, and 0 where there is none.
pub open spec fn longest(lens: Seq<nat>) -> nat
    decreases lens.len(),
{
    if lens.len() == 0 {
        0
    } else if lens.last() > longest(lens.drop_last()) {
        lens.last()
    } else {
        longest(lens.drop_last())
    }
}

/// The width of the name column: the length of the longest package name.
pub open spec fn name_width(changes: Seq<ChangeView>) -> nat {
    longest(changes.map_values(|c: ChangeView| c.pkg.name.len()))
}

/// The width of the version column: the length of the longest declared version.
pub open spec fn version_width(changes: Seq<ChangeView>) -> nat {
    longest(changes.map_values(|c: ChangeView| c.pkg.declared().len()))
}

/// The line for one change in a report whose columns are `names` and
/// `versions` wide: the name and a colon, the declared version, an arrow and
/// the new version, both versions with the declared range prefix. The
/// declared version starts one column after the colon of the longest name,
/// the arrow one column after the longest declared version.
pub open spec fn report_line(c: ChangeView, names: nat, versions: nat) -> Seq<char> {
    c.pkg.name + seq![':'] + spaces(names - c.pkg.name.len()) + seq![' '] + c.pkg.declared()
        + spaces(versions - c.pkg.declared().len()) + seq![' ', '=', '>', ' '] + c.updated()
        + seq!['\n']
}

/// The report of a change-set: its lines in the order of the changes, and
/// nothing for an empty change-set.
pub open spec fn report(changes: Seq<ChangeView>) -> Seq<char> {
    changes.map_values(
        |c: ChangeView| report_line(c, name_width(changes), version_width(changes)),
    ).flatten()
}

/// `longest` is the least bound of the lengths, and one of them.
pub proof fn lemma_longest(lens: Seq<nat>)
    ensures
        forall|i: int| 0 <= i < lens.len() ==> #[trigger] lens[i] <= longest(lens),
        lens.len() > 0 ==> exists|i: int| 0 <= i < lens.len() && #[trigger] lens[i] == longest(lens),
        lens.len() == 0 ==> longest(lens) == 0,
    decreases lens.len(),
{
    if lens.len() > 0 {
        let rest = lens.drop_last();
        lemma_longest(rest);
        assert forall|i: int| 0 <= i < lens.len() implies #[trigger] lens[i] <= longest(lens) by {
            if i < rest.len() {
                assert(rest[i] == lens[i]);
            }
        }
        if lens.last() > longest(rest) || rest.len() == 0 {
            assert(lens[lens.len() - 1] == longest(lens));
        } else {
            let i = choose|i: int| 0 <= i < rest.len() && #[trigger] rest[i] == longest(rest);
            assert(lens[i] == longest(lens));
        }
    }
}

/// Appends `n` spaces to `out`.
fn pad(out: &mut String, n: usize)
    ensures
        final(out)@ == old(out)@ + spaces(n as int),
{
    let mut i: usize = 0;
    while i < n
        invariant
            0 <= i <= n,
            out@ == old(out)@ + spaces(i as int),
        decreases n - i,
    {
        out.push(' ');
        proof {
            assert(spaces(i + 1) =~= spaces(i as int).push(' '));
            assert(out@ =~= old(out)@ + spaces(i + 1));
        }
        i += 1;
    }
}

/// The length of the longest package name in `changes`.
fn widest_name(changes: &Vec<PkgChange>) -> (r: usize)
    ensures
        r == name_width(change_views(changes@)),
{
    let ghost lens = change_views(changes@).map_values(|c: ChangeView| c.pkg.name.len());
    let mut widest: usize = 0;
    let mut i: usize = 0;
    while i < changes.len()
        invariant
            0 <= i <= changes.len(),
            lens == change_views(changes@).map_values(|c: ChangeView| c.pkg.name.len()),
            widest == longest(lens.take(i as int)),
        decreases changes.len() - i,
    {
        let len = changes[i].pkg.name.as_str().unicode_len();
        proof {
            assert(lens.take(i + 1).drop_last() =~= lens.take(i as int));
            assert(lens.take(i + 1).last() == len);
        }
        if len > widest {
            widest = len;
        }
        i += 1;
    }
    proof {
        assert(lens.take(i as int) =~= lens);
    }
    widest
}

/// The length of the longest declared version in `changes`.
fn widest_version(changes: &Vec<PkgChange>) -> (r: usize)
    ensures
        r == version_width(change_views(changes@)),
{
    let ghost lens = change_views(changes@).map_values(|c: ChangeView| c.pkg.declared().len());
    let mut widest: usize = 0;
    let mut i: usize = 0;
    while i < changes.len()
        invariant
            0 <= i <= changes.len(),
            lens == change_views(changes@).map_values(|c: ChangeView| c.pkg.declared().len()),
            widest == longest(lens.take(i as int)),
        decreases changes.len() - i,
    {
        let len = changes[i].pkg.with_prefix_own().as_str().unicode_len();
        proof {
            assert(lens.take(i + 1).drop_last() =~= lens.take(i as int));
            assert(lens.take(i + 1).last() == len);
        }
        if len > widest {
            widest = len;
        }
        i += 1;
    }
    proof {
        assert(lens.take(i as int) =~= lens);
    }
    widest
}

/// No name is longer than the name column, no declared version longer than
/// the version column.
pub proof fn lemma_widths(changes: Seq<ChangeView>)
    ensures
        forall|k: int|
            0 <= k < changes.len() ==> (#[trigger] changes[k]).pkg.name.len() <= name_width(
                changes,
            ),
        forall|k: int|
            0 <= k < changes.len() ==> (#[trigger] changes[k]).pkg.declared().len()
                <= version_width(changes),
{
    let names = changes.map_values(|c: ChangeView| c.pkg.name.len());
    let versions = changes.map_values(|c: ChangeView| c.pkg.declared().len());
    lemma_longest(names);
    lemma_longest(versions);
    assert forall|k: int| 0 <= k < changes.len() implies (#[trigger] changes[k]).pkg.name.len()
        <= name_width(changes) by {
        assert(names[k] == changes[k].pkg.name.len());
    }
    assert forall|k: int| 0 <= k < changes.len() implies (
    #[trigger] changes[k]).pkg.declared().len() <= version_width(changes) by {
        assert(versions[k] == changes[k].pkg.declared().len());
    }
}

/// Appends the line for `change` to `out`.
fn push_line(out: &mut String, change: &PkgChange, names: usize, versions: usize)
    requires
        change@.pkg.name.len() <= names,
        change@.pkg.declared().len() <= versions,
    ensures
        final(out)@ == old(out)@ + report_line(change@, names as nat, versions as nat),
{
    let own = change.pkg.with_prefix_own();
    let name_len = change.pkg.name.as_str().unicode_len();
    let version_len = own.as_str().unicode_len();
    let ghost c = change@;
    out.append(change.pkg.name.as_str());
    out.push(':');
    assert(out@ =~= old(out)@ + (c.pkg.name + seq![':']));
    pad(out, names - name_len);
    out.push(' ');
    assert(out@ =~= old(out)@ + (c.pkg.name + seq![':'] + spaces(names - c.pkg.name.len())
        + seq![' ']));
    out.append(own.as_str());
    pad(out, versions - version_len);
    assert(out@ =~= old(out)@ + (c.pkg.name + seq![':'] + spaces(names - c.pkg.name.len())
        + seq![' '] + c.pkg.declared() + spaces(versions - c.pkg.declared().len())));
    out.append(" => ");
    proof {
        reveal_strlit(" => ");
        assert(" => "@ =~= seq![' ', '=', '>', ' ']);
    }
    out.append(change.pkg.with_prefix(change.to.clone()).as_str());
    out.push('\n');
    assert(out@ =~= old(out)@ + report_line(c, names as nat, versions as nat));
}

/// Renders a change-set as an aligned report, one line for each change.
pub fn changes_str(pkg_changes: &Vec<PkgChange>) -> (r: String)
    ensures
        r@ == report(change_views(pkg_changes@)),
{
    let ghost all = change_views(pkg_changes@);
    let names = widest_name(pkg_changes);
    let versions = widest_version(pkg_changes);
    let ghost lines = all.map_values(
        |c: ChangeView| report_line(c, name_width(all), version_width(all)),
    );
    let mut changes = String::new();
    let mut i: usize = 0;
    proof {
        lemma_widths(all);
    }
    while i < pkg_changes.len()
        invariant
            0 <= i <= pkg_changes.len(),
            all == change_views(pkg_changes@),
            names == name_width(all),
            versions == version_width(all),
            lines == all.map_values(
                |c: ChangeView| report_line(c, name_width(all), version_width(all)),
            ),
            forall|k: int|
                0 <= k < all.len() ==> (#[trigger] all[k]).pkg.name.len() <= name_width(all),
            forall|k: int|
                0 <= k < all.len() ==> (#[trigger] all[k]).pkg.declared().len() <= version_width(
                    all,
                ),
            changes@ == lines.take(i as int).flatten(),
        decreases pkg_changes.len() - i,
    {
        let change = &pkg_changes[i];
        assert(all[i as int] == change@);
        push_line(&mut changes, change, names, versions);
        proof {
            assert(lines.take(i + 1) =~= lines.take(i as int).push(lines[i as int]));
            lines.take(i as int).lemma_flatten_push(lines[i as int]);
        }
        i += 1;
    }
    proof {
        assert(lines.take(i as int) =~= lines);
    }
    changes
}

} // verus!
