//! Package manifests: which packages a project declares, and how often its
//! files import each of them.

use vstd::prelude::*;
use crate::languages::{ImportView, ParsedFile, ParsedFileView};
use crate::text::{
    chars_of, lemma_rows_push, lemma_strs_push, rows, same_chars, string_of, strs, views,
};

verus! {

/// A package manifest: the names of the packages that it declares, by kind,
/// and where it stands.
#[derive(Clone, Debug, PartialEq, Eq)]
pub struct PackageJson {
    pub dependencies: Option<Vec<String>>,
    pub dev_dependencies: Option<Vec<String>>,
    pub peer_dependencies: Option<Vec<String>>,
    pub file_path: String,
}

/// A package manifest as a value of the model.
pub struct PackageJsonView {
    pub dependencies: Option<Seq<Seq<char>>>,
    pub dev_dependencies: Option<Seq<Seq<char>>>,
    pub peer_dependencies: Option<Seq<Seq<char>>>,
    pub file_path: Seq<char>,
}

/// What an optional list of names holds.
pub open spec fn opt_names(names: Option<Vec<String>>) -> Option<Seq<Seq<char>>> {
    match names {
        Some(v) => Some(strs(v@)),
        None => None,
    }
}

impl View for PackageJson {
    type V = PackageJsonView;

    open spec fn view(&self) -> PackageJsonView {
        PackageJsonView {
            dependencies: opt_names(self.dependencies),
            dev_dependencies: opt_names(self.dev_dependencies),
            peer_dependencies: opt_names(self.peer_dependencies),
            file_path: self.file_path@,
        }
    }
}

/// A declared package and the number of imports that use it.
#[derive(Clone, Debug, PartialEq, Eq)]
pub struct DependencyUse {
    pub name: String,
    pub count: usize,
}

/// A declared package and its uses as a value of the model.
pub struct DependencyUseView {
    pub name: Seq<char>,
    pub count: nat,
}

impl View for DependencyUse {
    type V = DependencyUseView;

    open spec fn view(&self) -> DependencyUseView {
        DependencyUseView { name: self.name@, count: self.count as nat }
    }
}

/// The declared packages of a project with their uses, each package once, in
/// the order in which they were first declared.
#[derive(Clone, Debug, PartialEq, Eq)]
pub struct PackageJsonExtract {
    pub dependencies: Vec<DependencyUse>,
}

impl View for PackageJsonExtract {
    type V = Seq<DependencyUseView>;

    open spec fn view(&self) -> Seq<DependencyUseView> {
        views(self.dependencies@)
    }
}

/// The names of a list that may be absent.
pub open spec fn names_in(names: Option<Seq<Seq<char>>>) -> Seq<Seq<char>> {
    match names {
        Some(v) => v,
        None => Seq::<Seq<char>>::empty(),
    }
}

/// The names that a manifest declares: its dependencies, then its
/// development dependencies, then its peer dependencies.
pub open spec fn declared_names(manifest: PackageJsonView) -> Seq<Seq<char>> {
    names_in(manifest.dependencies) + names_in(manifest.dev_dependencies) + names_in(
        manifest.peer_dependencies,
    )
}

/// The names that the first `n` manifests declare.
pub open spec fn all_declared(manifests: Seq<PackageJsonView>, n: nat) -> Seq<Seq<char>>
    decreases n,
{
    if n == 0 {
        Seq::<Seq<char>>::empty()
    } else {
        all_declared(manifests, (n - 1) as nat) + declared_names(manifests[n - 1])
    }
}

/// The first `n` names, each where it occurs first.
pub open spec fn first_of_each(names: Seq<Seq<char>>, n: nat) -> Seq<Seq<char>>
    decreases n,
{
    if n == 0 {
        Seq::<Seq<char>>::empty()
    } else {
        let before = first_of_each(names, (n - 1) as nat);
        if before.contains(names[n - 1]) {
            before
        } else {
            before.push(names[n - 1])
        }
    }
}

/// The packages of a project: what its manifests declare, each name once.
pub open spec fn packages_of(manifests: Seq<PackageJsonView>) -> Seq<Seq<char>> {
    first_of_each(
        all_declared(manifests, manifests.len()),
        all_declared(manifests, manifests.len()).len(),
    )
}

/// Whether a leading part of the specifier may end at `j`: at the end of the
/// specifier, or in front of a separator.
pub open spec fn is_boundary(source: Seq<char>, j: int) -> bool {
    0 <= j <= source.len() && (j == source.len() || source[j] == '/')
}

/// The shortest leading part of the specifier, `j` characters or longer, that
/// ends at a boundary and is a declared name.
pub open spec fn package_from(source: Seq<char>, declared: Seq<Seq<char>>, j: nat) -> Option<
    Seq<char>,
>
    decreases source.len() + 1 - j,
{
    if j > source.len() {
        None
    } else if is_boundary(source, j as int) && declared.contains(source.take(j as int)) {
        Some(source.take(j as int))
    } else {
        package_from(source, declared, j + 1)
    }
}

/// The declared package that an import uses: none for a relative specifier;
/// else the shortest leading part of the specifier that ends in front of a
/// separator, or with the specifier, and is a declared name.
pub open spec fn package_of(source: Seq<char>, declared: Seq<Seq<char>>) -> Option<Seq<char>> {
    if source.len() > 0 && source[0] == '.' {
        None
    } else {
        package_from(source, declared, 0)
    }
}

/// How many of the first `m` imports use the package `name`.
pub open spec fn uses_in_file(
    imports: Seq<ImportView>,
    declared: Seq<Seq<char>>,
    name: Seq<char>,
    m: nat,
) -> nat
    decreases m,
{
    if m == 0 {
        0
    } else if package_of(imports[m - 1].source, declared) == Some(name) {
        uses_in_file(imports, declared, name, (m - 1) as nat) + 1
    } else {
        uses_in_file(imports, declared, name, (m - 1) as nat)
    }
}

/// How many imports of the first `n` files use the package `name`.
pub open spec fn uses_in_files(
    files: Seq<ParsedFileView>,
    declared: Seq<Seq<char>>,
    name: Seq<char>,
    n: nat,
) -> nat
    decreases n,
{
    if n == 0 {
        0
    } else {
        uses_in_files(files, declared, name, (n - 1) as nat) + uses_in_file(
            files[n - 1].imports,
            declared,
            name,
            files[n - 1].imports.len(),
        )
    }
}

/// The number of imports of the first `n` files.
pub open spec fn import_count(files: Seq<ParsedFileView>, n: nat) -> nat
    decreases n,
{
    if n == 0 {
        0
    } else {
        import_count(files, (n - 1) as nat) + files[n - 1].imports.len()
    }
}

/// The packages of a project with the number of imports that use each.
pub open spec fn usage_of(files: Seq<ParsedFileView>, manifests: Seq<PackageJsonView>) -> Seq<
    DependencyUseView,
> {
    let declared = packages_of(manifests);
    Seq::new(
        declared.len(),
        |i: int|
            DependencyUseView {
                name: declared[i],
                count: uses_in_files(files, declared, declared[i], files.len()),
            },
    )
}

/// No more imports use a package than there are.
pub proof fn lemma_uses_in_file_bound(
    imports: Seq<ImportView>,
    declared: Seq<Seq<char>>,
    name: Seq<char>,
    m: nat,
)
    ensures
        uses_in_file(imports, declared, name, m) <= m,
    decreases m,
{
    if m > 0 {
        lemma_uses_in_file_bound(imports, declared, name, (m - 1) as nat);
    }
}

/// No more imports use a package than there are.
pub proof fn lemma_uses_in_files_bound(
    files: Seq<ParsedFileView>,
    declared: Seq<Seq<char>>,
    name: Seq<char>,
    n: nat,
)
    ensures
        uses_in_files(files, declared, name, n) <= import_count(files, n),
    decreases n,
{
    if n > 0 {
        lemma_uses_in_files_bound(files, declared, name, (n - 1) as nat);
        lemma_uses_in_file_bound(files[n - 1].imports, declared, name, files[n - 1].imports.len());
    }
}

/// The more files, the more imports.
pub proof fn lemma_import_count_grows(files: Seq<ParsedFileView>, n: nat, m: nat)
    requires
        n <= m,
    ensures
        import_count(files, n) <= import_count(files, m),
    decreases m,
{
    if n < m {
        lemma_import_count_grows(files, n, (m - 1) as nat);
    }
}

/// Appends copies of the names of a list that may be absent.
fn push_copies(out: &mut Vec<String>, names: &Option<Vec<String>>)
    ensures
        strs(final(out)@) == strs(old(out)@) + names_in(opt_names(*names)),
{
    match names {
        Some(v) => {
            let mut i: usize = 0;
            assert(strs(out@) =~= strs(old(out)@) + strs(v@).take(0));
            while i < v.len()
                invariant
                    i <= v.len(),
                    strs(out@) == strs(old(out)@) + strs(v@).take(i as int),
                decreases v.len() - i,
            {
                let ghost before = out@;
                let copy = v[i].clone();
                out.push(copy);
                proof {
                    lemma_strs_push(before, copy);
                    assert(strs(v@).take(i + 1) =~= strs(v@).take(i as int).push(v@[i as int]@));
                    assert(strs(out@) =~= strs(old(out)@) + strs(v@).take(i + 1));
                }
                i += 1;
            }
            assert(strs(v@).take(v.len() as int) =~= strs(v@));
        },
        None => {
            assert(strs(out@) =~= strs(old(out)@) + Seq::<Seq<char>>::empty());
        },
    }
}

/// The names of the packages that the manifest declares: its dependencies,
/// then its development dependencies, then its peer dependencies.
pub fn list_dependencies(package_json: PackageJson) -> (names: Vec<String>)
    ensures
        strs(names@) == declared_names(package_json@),
{
    let mut names: Vec<String> = Vec::new();
    assert(strs(names@) =~= Seq::<Seq<char>>::empty());
    push_copies(&mut names, &package_json.dependencies);
    push_copies(&mut names, &package_json.dev_dependencies);
    push_copies(&mut names, &package_json.peer_dependencies);
    assert(strs(names@) =~= declared_names(package_json@));
    names
}

/// Whether `name` is among `names`.
fn holds_name(names: &Vec<Vec<char>>, name: &Vec<char>) -> (r: bool)
    ensures
        r == rows(names@).contains(name@),
{
    let ghost all = rows(names@);
    let mut i: usize = 0;
    while i < names.len()
        invariant
            i <= names.len(),
            all == rows(names@),
            forall|j: int| 0 <= j < i ==> all[j] != name@,
        decreases names.len() - i,
    {
        assert(all[i as int] == names@[i as int]@);
        if same_chars(&names[i], name) {
            return true;
        }
        i += 1;
    }
    false
}

/// The packages of a project: what its manifests declare, each name once.
fn list_packages(package_jsons: &Vec<PackageJson>) -> (names: Vec<Vec<char>>)
    ensures
        rows(names@) == packages_of(views(package_jsons@)),
{
    let ghost manifests = views(package_jsons@);
    let mut flat: Vec<String> = Vec::new();
    let mut k: usize = 0;
    assert(strs(flat@) =~= all_declared(manifests, 0));
    while k < package_jsons.len()
        invariant
            k <= package_jsons.len(),
            manifests == views(package_jsons@),
            strs(flat@) == all_declared(manifests, k as nat),
        decreases package_jsons.len() - k,
    {
        let manifest = &package_jsons[k];
        assert(manifests[k as int] == manifest@);
        let ghost start = strs(flat@);
        push_copies(&mut flat, &manifest.dependencies);
        push_copies(&mut flat, &manifest.dev_dependencies);
        push_copies(&mut flat, &manifest.peer_dependencies);
        assert(strs(flat@) =~= start + declared_names(manifest@));
        k += 1;
    }
    let ghost all = strs(flat@);
    let mut names: Vec<Vec<char>> = Vec::new();
    let mut i: usize = 0;
    assert(rows(names@) =~= first_of_each(all, 0));
    while i < flat.len()
        invariant
            i <= flat.len(),
            all == strs(flat@),
            rows(names@) == first_of_each(all, i as nat),
        decreases flat.len() - i,
    {
        let name = chars_of(flat[i].as_str());
        assert(all[i as int] == name@);
        if !holds_name(&names, &name) {
            let ghost before = names@;
            names.push(name);
            proof {
                lemma_rows_push(before, name);
            }
        }
        i += 1;
    }
    names
}

/// The declared package that an import with the given specifier uses.
fn find_package(source: &Vec<char>, names: &Vec<Vec<char>>) -> (r: Option<Vec<char>>)
    ensures
        match r {
            Some(p) => package_of(source@, rows(names@)) == Some(p@),
            None => package_of(source@, rows(names@)) is None,
        },
{
    if source.len() > 0 && source[0] == '.' {
        return None;
    }
    let ghost declared = rows(names@);
    let mut prefix: Vec<char> = Vec::new();
    let mut j: usize = 0;
    assert(prefix@ =~= source@.take(0));
    loop
        invariant
            j <= source.len(),
            declared == rows(names@),
            prefix@ == source@.take(j as int),
            package_of(source@, declared) == package_from(source@, declared, j as nat),
        decreases source.len() - j,
    {
        if (j == source.len() || source[j] == '/') && holds_name(names, &prefix) {
            return Some(prefix);
        }
        if j == source.len() {
            return None;
        }
        prefix.push(source[j]);
        assert(source@.take(j + 1) =~= source@.take(j as int).push(source@[j as int]));
        j += 1;
    }
}

/// Counts, for each declared package, the imports that use it. The packages
/// are what the manifests declare, each name once, in the order in which
/// they are first declared. An import uses a package where its specifier is
/// not relative and the package's name is the shortest leading part of the
/// specifier that ends with it or in front of a separator and is declared.
pub fn extract_package_json(files: &Vec<ParsedFile>, package_jsons: Vec<PackageJson>) -> (r:
    PackageJsonExtract)
    requires
        import_count(views(files@), files.len() as nat) <= usize::MAX,
    ensures
        r@ == usage_of(views(files@), views(package_jsons@)),
{
    count_package_uses(files, &package_jsons)
}

/// The names of a usage table, in its order.
pub open spec fn names_of(table: Seq<DependencyUseView>) -> Seq<Seq<char>> {
    Seq::new(table.len(), |i: int| table[i].name)
}

/// The names of the usage table of a project are its packages.
pub proof fn lemma_usage_names(files: Seq<ParsedFileView>, manifests: Seq<PackageJsonView>)
    ensures
        names_of(usage_of(files, manifests)) == packages_of(manifests),
{
    assert(names_of(usage_of(files, manifests)) =~= packages_of(manifests));
}

/// The names of the packages of a usage table, in its order.
pub fn package_names(usage: &PackageJsonExtract) -> (names: Vec<String>)
    ensures
        strs(names@) == names_of(usage@),
{
    let mut names: Vec<String> = Vec::new();
    let mut i: usize = 0;
    while i < usage.dependencies.len()
        invariant
            i <= usage.dependencies.len(),
            names.len() == i,
            forall|j: int| 0 <= j < i ==> (#[trigger] names[j])@ == usage@[j].name,
        decreases usage.dependencies.len() - i,
    {
        assert(usage@[i as int] == usage.dependencies@[i as int]@);
        names.push(usage.dependencies[i].name.clone());
        i += 1;
    }
    assert(strs(names@) =~= names_of(usage@));
    names
}

/// Counts, for each declared package, the imports that use it, as
/// `extract_package_json` does, and leaves the manifests with the caller.
pub fn count_package_uses(files: &Vec<ParsedFile>, package_jsons: &Vec<PackageJson>) -> (r:
    PackageJsonExtract)
    requires
        import_count(views(files@), files.len() as nat) <= usize::MAX,
    ensures
        r@ == usage_of(views(files@), views(package_jsons@)),
{
    let names = list_packages(package_jsons);
    let ghost all = views(files@);
    let ghost declared = rows(names@);
    let mut counts: Vec<usize> = Vec::new();
    let mut i: usize = 0;
    while i < names.len()
        invariant
            i <= names.len(),
            counts.len() == i,
            forall|x: int| 0 <= x < i ==> counts[x] == 0,
        decreases names.len() - i,
    {
        counts.push(0);
        i += 1;
    }
    let mut f: usize = 0;
    while f < files.len()
        invariant
            f <= files.len(),
            all == views(files@),
            declared == rows(names@),
            counts.len() == names.len(),
            import_count(all, files.len() as nat) <= usize::MAX,
            forall|x: int|
                0 <= x < counts.len() ==> #[trigger] counts[x] == uses_in_files(
                    all,
                    declared,
                    declared[x],
                    f as nat,
                ),
        decreases files.len() - f,
    {
        let file = &files[f];
        assert(all[f as int] == file@);
        let ghost imports = file@.imports;
        let mut m: usize = 0;
        while m < file.imports.len()
            invariant
                m <= file.imports.len(),
                f < files.len(),
                all == views(files@),
                all[f as int] == file@,
                imports == file@.imports,
                declared == rows(names@),
                counts.len() == names.len(),
                import_count(all, files.len() as nat) <= usize::MAX,
                forall|x: int|
                    0 <= x < counts.len() ==> #[trigger] counts[x] == uses_in_files(
                        all,
                        declared,
                        declared[x],
                        f as nat,
                    ) + uses_in_file(imports, declared, declared[x], m as nat),
            decreases file.imports.len() - m,
        {
            let import = &file.imports[m];
            assert(imports[m as int] == import@);
            let source = chars_of(import.source.as_str());
            match find_package(&source, &names) {
                Some(package) => {
                    let mut x: usize = 0;
                    while x < names.len()
                        invariant
                            x <= names.len(),
                            m < file.imports.len(),
                            f < files.len(),
                            all[f as int] == file@,
                            imports == file@.imports,
                            imports[m as int] == import@,
                            declared == rows(names@),
                            counts.len() == names.len(),
                            package_of(import@.source, declared) == Some(package@),
                            import_count(all, files.len() as nat) <= usize::MAX,
                            forall|y: int|
                                0 <= y < x ==> #[trigger] counts[y] == uses_in_files(
                                    all,
                                    declared,
                                    declared[y],
                                    f as nat,
                                ) + uses_in_file(imports, declared, declared[y], (m + 1) as nat),
                            forall|y: int|
                                x <= y < counts.len() ==> #[trigger] counts[y] == uses_in_files(
                                    all,
                                    declared,
                                    declared[y],
                                    f as nat,
                                ) + uses_in_file(imports, declared, declared[y], m as nat),
                        decreases names.len() - x,
                    {
                        assert(declared[x as int] == names@[x as int]@);
                        if same_chars(&names[x], &package) {
                            proof {
                                let name = declared[x as int];
                                lemma_uses_in_files_bound(all, declared, name, f as nat);
                                lemma_uses_in_file_bound(imports, declared, name, (m + 1) as nat);
                                lemma_import_count_grows(all, (f + 1) as nat, files.len() as nat);
                                assert(import_count(all, (f + 1) as nat) == import_count(
                                    all,
                                    f as nat,
                                ) + imports.len());
                            }
                            let c = counts[x];
                            counts.set(x, c + 1);
                        }
                        x += 1;
                    }
                },
                None => {},
            }
            m += 1;
        }
        f += 1;
    }
    let mut dependencies: Vec<DependencyUse> = Vec::new();
    let mut i: usize = 0;
    while i < names.len()
        invariant
            i <= names.len(),
            declared == rows(names@),
            counts.len() == names.len(),
            dependencies.len() == i,
            forall|x: int|
                0 <= x < counts.len() ==> #[trigger] counts[x] == uses_in_files(
                    all,
                    declared,
                    declared[x],
                    files.len() as nat,
                ),
            forall|x: int|
                0 <= x < i ==> (#[trigger] dependencies[x])@ == (DependencyUseView {
                    name: declared[x],
                    count: uses_in_files(all, declared, declared[x], files.len() as nat),
                }),
        decreases names.len() - i,
    {
        assert(declared[i as int] == names@[i as int]@);
        dependencies.push(DependencyUse { name: string_of(&names[i]), count: counts[i] });
        i += 1;
    }
    let r = PackageJsonExtract { dependencies };
    assert(r@ =~= usage_of(all, views(package_jsons@)));
    r
}

} // verus!
