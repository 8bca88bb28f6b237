use depsize::package::{DepKind, DependencyDeclaration, ResolvedPackage};
use depsize::precedence::Precedence;
use depsize::report::{
    collect_rows, dependency_report, make_label, render_row, render_total, sort_rows, total_size,
    ReportRow,
};
use depsize::selection::{distinct_normal_names, latest_version, prefer};
use depsize::size_table::{SizeEntry, SizeTable};
use depsize::version::Version;

fn package(name: &str, major: u64, minor: u64, patch: u64) -> ResolvedPackage {
    ResolvedPackage {
        name: name.to_string(),
        version: Version::new(major, minor, patch, "", "").unwrap(),
    }
}

fn pre_release(name: &str, major: u64, minor: u64, patch: u64, pre: &str) -> ResolvedPackage {
    ResolvedPackage {
        name: name.to_string(),
        version: Version::new(major, minor, patch, pre, "").unwrap(),
    }
}

fn dep(name: &str, kind: DepKind) -> DependencyDeclaration {
    DependencyDeclaration {
        name_in_manifest: name.to_string(),
        package_name: name.to_string(),
        kind,
    }
}

fn row(label: &str, size: u64) -> ReportRow {
    ReportRow { label: label.to_string(), size }
}

fn lines_of(
    deps: &Vec<DependencyDeclaration>,
    packages: &Vec<ResolvedPackage>,
    sizes: &SizeTable,
) -> Vec<String> {
    dependency_report(deps, packages, sizes).unwrap().lines()
}

#[test]
fn no_dependencies_give_the_total_alone() {
    let report = dependency_report(&vec![], &vec![], &SizeTable::new()).unwrap();
    assert!(report.rows.is_empty());
    assert_eq!(report.total, 0);
    assert_eq!(report.lines(), vec!["> Total size: 0 bytes".to_string()]);
}

#[test]
fn packages_without_declarations_are_not_reported() {
    let packages = vec![package("serde", 1, 0, 0)];
    let mut sizes = SizeTable::new();
    sizes.insert(SizeEntry { package: package("serde", 1, 0, 0), size: 500 });
    assert_eq!(lines_of(&vec![], &packages, &sizes), vec!["> Total size: 0 bytes".to_string()]);
}

#[test]
fn the_higher_of_two_versions_is_reported() {
    let deps = vec![dep("rand", DepKind::Normal)];
    for packages in [
        vec![package("rand", 0, 7, 3), package("rand", 0, 8, 5)],
        vec![package("rand", 0, 8, 5), package("rand", 0, 7, 3)],
    ] {
        for lower_first in [true, false] {
            let mut sizes = SizeTable::new();
            if lower_first {
                sizes.insert(SizeEntry { package: package("rand", 0, 7, 3), size: 111 });
                sizes.insert(SizeEntry { package: package("rand", 0, 8, 5), size: 2048 });
            } else {
                sizes.insert(SizeEntry { package: package("rand", 0, 8, 5), size: 2048 });
                sizes.insert(SizeEntry { package: package("rand", 0, 7, 3), size: 111 });
            }
            let report = dependency_report(&deps, &packages, &sizes).unwrap();
            assert_eq!(report.rows.len(), 1);
            assert_eq!(report.rows[0].label, "rand (v0.8.5)");
            assert_eq!(report.rows[0].size, 2048);
            assert_eq!(report.total, 2048);
            assert_eq!(
                report.lines(),
                vec![
                    "rand (v0.8.5)             : 2.00KB (2048 bytes)".to_string(),
                    "> Total size: 2.00KB (2048 bytes)".to_string(),
                ]
            );
        }
    }
}

#[test]
fn a_release_is_preferred_to_its_pre_release() {
    let deps = vec![dep("tokio", DepKind::Normal)];
    let packages = vec![
        pre_release("tokio", 1, 0, 0, "alpha.11"),
        package("tokio", 1, 0, 0),
        pre_release("tokio", 1, 0, 0, "alpha.2"),
    ];
    let mut sizes = SizeTable::new();
    sizes.insert(SizeEntry { package: pre_release("tokio", 1, 0, 0, "alpha.11"), size: 1 });
    sizes.insert(SizeEntry { package: package("tokio", 1, 0, 0), size: 2 });
    sizes.insert(SizeEntry { package: pre_release("tokio", 1, 0, 0, "alpha.2"), size: 3 });
    let report = dependency_report(&deps, &packages, &sizes).unwrap();
    assert_eq!(report.rows.len(), 1);
    assert_eq!(report.rows[0].label, "tokio (v1.0.0)");
    assert_eq!(report.rows[0].size, 2);
}

#[test]
fn pre_releases_are_ranked_among_themselves() {
    let packages = vec![
        pre_release("tokio", 1, 0, 0, "alpha.11"),
        pre_release("tokio", 1, 0, 0, "alpha.2"),
    ];
    assert_eq!(latest_version(&packages, &"tokio".to_string()), Some(0));
    let packages = vec![
        pre_release("tokio", 1, 0, 0, "alpha.2"),
        pre_release("tokio", 1, 0, 0, "alpha.11"),
    ];
    assert_eq!(latest_version(&packages, &"tokio".to_string()), Some(1));
}

#[test]
fn latest_version_looks_at_the_name() {
    let packages = vec![
        package("a", 9, 0, 0),
        package("b", 1, 0, 0),
        package("a", 1, 0, 0),
        package("b", 1, 0, 1),
    ];
    assert_eq!(latest_version(&packages, &"a".to_string()), Some(0));
    assert_eq!(latest_version(&packages, &"b".to_string()), Some(3));
    assert_eq!(latest_version(&packages, &"c".to_string()), None);
    assert_eq!(latest_version(&vec![], &"a".to_string()), None);
}

#[test]
fn of_two_equal_versions_the_later_one_is_taken() {
    let packages = vec![package("a", 1, 0, 0), package("a", 1, 0, 0)];
    assert_eq!(latest_version(&packages, &"a".to_string()), Some(1));
}

#[test]
fn prefer_keeps_only_a_higher_choice() {
    assert_eq!(prefer(3, 8, Precedence::Higher), 3);
    assert_eq!(prefer(3, 8, Precedence::Same), 8);
    assert_eq!(prefer(3, 8, Precedence::Lower), 8);
}

#[test]
fn a_name_declared_twice_gives_one_row() {
    let deps = vec![
        dep("libc", DepKind::Normal),
        dep("libc", DepKind::Normal),
        dep("libc", DepKind::Build),
    ];
    let packages = vec![package("libc", 0, 2, 150)];
    let mut sizes = SizeTable::new();
    sizes.insert(SizeEntry { package: package("libc", 0, 2, 150), size: 77 });
    let report = dependency_report(&deps, &packages, &sizes).unwrap();
    assert_eq!(report.rows.len(), 1);
    assert_eq!(report.total, 77);
    assert_eq!(
        report.lines(),
        vec![
            "libc (v0.2.150)           : 77 bytes".to_string(),
            "> Total size: 77 bytes".to_string(),
        ]
    );
}

#[test]
fn names_are_taken_once_in_the_order_of_their_first_declaration() {
    let deps = vec![
        dep("b", DepKind::Normal),
        dep("dev-only", DepKind::Development),
        dep("a", DepKind::Normal),
        dep("b", DepKind::Normal),
        dep("build-only", DepKind::Build),
        dep("a", DepKind::Development),
    ];
    assert_eq!(distinct_normal_names(&deps), vec!["b".to_string(), "a".to_string()]);
    assert!(distinct_normal_names(&vec![]).is_empty());
}

#[test]
fn the_package_name_counts_not_the_name_in_the_manifest() {
    let deps = vec![DependencyDeclaration {
        name_in_manifest: "json".to_string(),
        package_name: "serde_json".to_string(),
        kind: DepKind::Normal,
    }];
    assert_eq!(distinct_normal_names(&deps), vec!["serde_json".to_string()]);
}

#[test]
fn only_normal_dependencies_are_reported() {
    let deps = vec![
        dep("criterion", DepKind::Development),
        dep("cc", DepKind::Build),
        dep("serde", DepKind::Normal),
    ];
    let packages = vec![package("criterion", 0, 5, 1), package("cc", 1, 0, 83), package("serde", 1, 0, 193)];
    let mut sizes = SizeTable::new();
    sizes.insert(SizeEntry { package: package("criterion", 0, 5, 1), size: 1000 });
    sizes.insert(SizeEntry { package: package("cc", 1, 0, 83), size: 2000 });
    sizes.insert(SizeEntry { package: package("serde", 1, 0, 193), size: 3000 });
    assert_eq!(
        lines_of(&deps, &packages, &sizes),
        vec![
            "serde (v1.0.193)          : 2.93KB (3000 bytes)".to_string(),
            "> Total size: 2.93KB (3000 bytes)".to_string(),
        ]
    );
}

#[test]
fn a_dependency_without_package_or_size_is_passed_over() {
    let deps = vec![
        dep("missing", DepKind::Normal),
        dep("unmeasured", DepKind::Normal),
        dep("measured", DepKind::Normal),
    ];
    let packages = vec![package("unmeasured", 1, 0, 0), package("measured", 1, 0, 0), package("measured", 2, 0, 0)];
    let mut sizes = SizeTable::new();
    sizes.insert(SizeEntry { package: package("measured", 1, 0, 0), size: 10 });
    // the higher version of `measured` has no size: its row is left out
    let report = dependency_report(&deps, &packages, &sizes).unwrap();
    assert!(report.rows.is_empty());
    assert_eq!(report.total, 0);
    sizes.insert(SizeEntry { package: package("measured", 2, 0, 0), size: 20 });
    let report = dependency_report(&deps, &packages, &sizes).unwrap();
    assert_eq!(report.rows.len(), 1);
    assert_eq!(report.rows[0].label, "measured (v2.0.0)");
    assert_eq!(report.total, 20);
}

#[test]
fn rows_come_in_ascending_order_and_add_up() {
    let deps = vec![
        dep("large", DepKind::Normal),
        dep("small", DepKind::Normal),
        dep("middle", DepKind::Normal),
        dep("empty", DepKind::Normal),
    ];
    let packages = vec![
        package("small", 0, 1, 0),
        package("empty", 3, 0, 0),
        package("large", 1, 0, 0),
        package("middle", 2, 0, 0),
    ];
    let mut sizes = SizeTable::new();
    sizes.insert(SizeEntry { package: package("large", 1, 0, 0), size: 5_000_000_000 });
    sizes.insert(SizeEntry { package: package("small", 0, 1, 0), size: 100 });
    sizes.insert(SizeEntry { package: package("middle", 2, 0, 0), size: 1_048_576 });
    sizes.insert(SizeEntry { package: package("empty", 3, 0, 0), size: 0 });
    let report = dependency_report(&deps, &packages, &sizes).unwrap();
    let seen: Vec<u64> = report.rows.iter().map(|r| r.size).collect();
    assert_eq!(seen, vec![0, 100, 1_048_576, 5_000_000_000]);
    assert_eq!(report.total, 5_001_048_676);
    assert_eq!(
        report.lines(),
        vec![
            "empty (v3.0.0)            : 0 bytes".to_string(),
            "small (v0.1.0)            : 100 bytes".to_string(),
            "middle (v2.0.0)           : 1.00MB (1048576 bytes)".to_string(),
            "large (v1.0.0)            : 4.66GB (5000000000 bytes)".to_string(),
            "> Total size: 4.66GB (5001048676 bytes)".to_string(),
        ]
    );
}

#[test]
fn a_total_beyond_64_bits_gives_no_report() {
    let deps = vec![dep("a", DepKind::Normal), dep("b", DepKind::Normal)];
    let packages = vec![package("a", 1, 0, 0), package("b", 1, 0, 0)];
    let mut sizes = SizeTable::new();
    sizes.insert(SizeEntry { package: package("a", 1, 0, 0), size: u64::MAX });
    sizes.insert(SizeEntry { package: package("b", 1, 0, 0), size: 1 });
    assert!(dependency_report(&deps, &packages, &sizes).is_none());
    sizes.insert(SizeEntry { package: package("b", 1, 0, 0), size: 0 });
    assert_eq!(dependency_report(&deps, &packages, &sizes).unwrap().total, u64::MAX);
}

#[test]
fn total_size_adds_the_rows() {
    assert_eq!(total_size(&vec![]), Some(0));
    assert_eq!(total_size(&vec![row("a", 1), row("b", 2), row("c", 3)]), Some(6));
    assert_eq!(total_size(&vec![row("a", u64::MAX), row("b", 0)]), Some(u64::MAX));
    assert_eq!(total_size(&vec![row("a", u64::MAX), row("b", 1), row("c", 0)]), None);
}

#[test]
fn sort_rows_orders_by_size_and_keeps_every_row() {
    let sorted = sort_rows(vec![row("a", 3), row("b", 1), row("c", 2), row("d", 1), row("e", 3)]);
    let seen: Vec<(String, u64)> = sorted.into_iter().map(|r| (r.label, r.size)).collect();
    let expected: Vec<(String, u64)> = [("b", 1), ("d", 1), ("c", 2), ("a", 3), ("e", 3)]
        .iter()
        .map(|(l, s)| (l.to_string(), *s))
        .collect();
    assert_eq!(seen, expected);
    assert!(sort_rows(vec![]).is_empty());
}

#[test]
fn labels_name_the_package_and_its_version() {
    assert_eq!(make_label(&package("serde", 1, 0, 193)), "serde (v1.0.193)");
    assert_eq!(make_label(&pre_release("clap", 4, 0, 0, "rc.2")), "clap (v4.0.0-rc.2)");
    let with_build = ResolvedPackage {
        name: "zstd-sys".to_string(),
        version: Version::new(2, 0, 9, "", "zstd.1.5.5").unwrap(),
    };
    assert_eq!(make_label(&with_build), "zstd-sys (v2.0.9+zstd.1.5.5)");
}

#[test]
fn labels_are_padded_but_never_cut() {
    assert_eq!(render_row(&row("a (v1.0.0)", 5)), "a (v1.0.0)                : 5 bytes");
    assert_eq!(render_row(&row("", 5)), "                          : 5 bytes");
    let exact = "exactly-twenty-five-chars";
    assert_eq!(exact.len(), 25);
    assert_eq!(render_row(&row(exact, 1024)), "exactly-twenty-five-chars : 1.00KB (1024 bytes)");
    let long = "a-rather-long-package-name (v10.20.30)";
    assert_eq!(render_row(&row(long, 1)), "a-rather-long-package-name (v10.20.30) : 1 bytes");
    // the width counts characters, not bytes
    assert_eq!(render_row(&row("\u{e9}t\u{e9}", 1)), format!("{: <25} : 1 bytes", "\u{e9}t\u{e9}"));
}

#[test]
fn the_total_line_shows_the_size() {
    assert_eq!(render_total(0), "> Total size: 0 bytes");
    assert_eq!(render_total(1_073_741_824), "> Total size: 1.00GB (1073741824 bytes)");
}

#[test]
fn collect_rows_follows_the_names() {
    let names = vec!["b".to_string(), "nobody".to_string(), "a".to_string()];
    let packages = vec![package("a", 1, 0, 0), package("b", 2, 0, 0)];
    let mut sizes = SizeTable::new();
    sizes.insert(SizeEntry { package: package("a", 1, 0, 0), size: 10 });
    sizes.insert(SizeEntry { package: package("b", 2, 0, 0), size: 5 });
    let rows = collect_rows(&names, &packages, &sizes);
    let seen: Vec<(String, u64)> = rows.into_iter().map(|r| (r.label, r.size)).collect();
    assert_eq!(seen, vec![("b (v2.0.0)".to_string(), 5), ("a (v1.0.0)".to_string(), 10)]);
}

#[test]
fn a_size_replaces_the_one_recorded_before() {
    let mut sizes = SizeTable::new();
    assert_eq!(sizes.len(), 0);
    assert_eq!(sizes.get(&package("a", 1, 0, 0)), None);
    sizes.insert(SizeEntry { package: package("a", 1, 0, 0), size: 10 });
    sizes.insert(SizeEntry { package: package("a", 1, 0, 1), size: 20 });
    sizes.insert(SizeEntry { package: package("b", 1, 0, 0), size: 30 });
    assert_eq!(sizes.len(), 3);
    sizes.insert(SizeEntry { package: package("a", 1, 0, 0), size: 40 });
    assert_eq!(sizes.len(), 3);
    assert_eq!(sizes.get(&package("a", 1, 0, 0)), Some(40));
    assert_eq!(sizes.get(&package("a", 1, 0, 1)), Some(20));
    assert_eq!(sizes.get(&package("b", 1, 0, 0)), Some(30));
    assert_eq!(sizes.get(&package("b", 1, 0, 1)), None);
    assert_eq!(sizes.get(&pre_release("a", 1, 0, 0, "rc.1")), None);
}
