use spacecleaner::docker::{
    failure_is_fatal, parse_docker_output, parse_docker_system_df, plan_docker_cleanup, prune_arguments,
    summarize_prune_output, PruneKind, PruneSelection,
};
use spacecleaner::report::{parse_df_output, DfParseError};
use spacecleaner::text::{chars_of, decimal_text, split_lines, split_words, text_of};
use spacecleaner::units::{parse_size_string, SizeParseError};

#[test]
fn size_with_fraction_uses_base_1024() {
    assert_eq!(parse_size_string("1.5MB"), Ok(1572864));
    assert_eq!(parse_size_string("1.5Mi"), Ok(1572864));
}

#[test]
fn size_rounds_down_to_whole_bytes() {
    assert_eq!(parse_size_string("1.2GB"), Ok(1288490188));
    assert_eq!(parse_size_string("0.1KB"), Ok(102));
}

#[test]
fn size_suffix_spellings_are_synonyms() {
    assert_eq!(parse_size_string("12KB"), parse_size_string("12Ki"));
    assert_eq!(parse_size_string("3GB"), Ok(3 * 1073741824));
    assert_eq!(parse_size_string("3Gi"), Ok(3 * 1073741824));
    assert_eq!(parse_size_string("400MB"), Ok(419430400));
}

#[test]
fn size_plain_bytes() {
    assert_eq!(parse_size_string("0B"), Ok(0));
    assert_eq!(parse_size_string("4096"), Ok(4096));
    assert_eq!(parse_size_string("4096B"), Ok(4096));
    assert_eq!(parse_size_string("  512B \n"), Ok(512));
    assert_eq!(parse_size_string("18446744073709551615"), Ok(u64::MAX));
}

#[test]
fn size_point_forms() {
    assert_eq!(parse_size_string(".5KB"), Ok(512));
    assert_eq!(parse_size_string("2.KB"), Ok(2048));
}

#[test]
fn size_errors() {
    assert_eq!(parse_size_string(""), Err(SizeParseError::InvalidSize));
    assert_eq!(parse_size_string("abc"), Err(SizeParseError::InvalidSize));
    assert_eq!(parse_size_string("GB"), Err(SizeParseError::InvalidSize));
    assert_eq!(parse_size_string(".KB"), Err(SizeParseError::InvalidSize));
    assert_eq!(parse_size_string("1.5B"), Err(SizeParseError::InvalidSize));
    assert_eq!(parse_size_string("1.2.3MB"), Err(SizeParseError::InvalidSize));
    assert_eq!(parse_size_string("12TB"), Err(SizeParseError::InvalidSize));
    assert_eq!(parse_size_string("18446744073709551616"), Err(SizeParseError::InvalidSize));
    assert_eq!(parse_size_string("20000000000GB"), Err(SizeParseError::InvalidSize));
}

#[test]
fn byte_count_written_out_reads_back() {
    for n in [0u64, 7, 10, 1572864, 1288490188, u64::MAX] {
        let digits = decimal_text(n);
        assert_eq!(digits, n.to_string());
        assert_eq!(parse_size_string(&digits), Ok(n));
        assert_eq!(parse_size_string(&format!("{}B", digits)), Ok(n));
    }
}

#[test]
fn scaled_token_is_within_one_byte_of_exact_value() {
    // 1.3 KiB is 1331.2 bytes.
    assert_eq!(parse_size_string("1.3KB"), Ok(1331));
    // 2.25 MiB is exactly 2359296 bytes.
    assert_eq!(parse_size_string("2.25MB"), Ok(2359296));
}

#[test]
fn lines_and_words_split() {
    let text = chars_of("a b\r\n\n  c\td  \nlast");
    let lines: Vec<String> = split_lines(&text).iter().map(|l| text_of(l)).collect();
    assert_eq!(lines, vec!["a b", "", "  c\td  ", "last"]);
    let words: Vec<String> = split_words(&chars_of("  c\td  ")).iter().map(|w| text_of(w)).collect();
    assert_eq!(words, vec!["c", "d"]);
    assert!(split_lines(&chars_of("")).is_empty());
}

#[test]
fn images_row_parses() {
    let u = parse_docker_system_df("Images 10 3 1.2GB 400MB");
    assert_eq!(u.image_count, 10);
    assert_eq!(u.active_image_count, 3);
    assert_eq!(u.image_bytes, 1288490188);
    assert_eq!(u.reclaimable_bytes, 419430400);
}

#[test]
fn full_usage_report_parses() {
    let report = "TYPE            TOTAL     ACTIVE    SIZE      RECLAIMABLE\n\
                  Images          5         2         16.43GB   11.63GB (70%)\n\
                  Containers      2         0         115.2MB   115.2MB (100%)\n\
                  Local Volumes   3         1         1.5GB     1GB (66%)\n\
                  Build Cache     7         0         512MB     512MB\n";
    let u = parse_docker_system_df(report);
    assert_eq!(u.image_count, 5);
    assert_eq!(u.active_image_count, 2);
    assert_eq!(u.image_bytes, 17641578168);
    assert_eq!(u.reclaimable_bytes, 12487617413);
    assert_eq!(u.container_count, 2);
    assert_eq!(u.running_container_count, 0);
    assert_eq!(u.container_bytes, 120795955);
    assert_eq!(u.volume_count, 3);
    assert_eq!(u.active_volume_count, 1);
    assert_eq!(u.volume_bytes, 1610612736);
    assert_eq!(u.build_cache_bytes, 536870912);
}

#[test]
fn short_rows_are_skipped_and_bad_fields_are_zero() {
    let report = "Images 4 1\nContainers x 2 9MB\nLocal Volumes 1 1 oops\nBuild Cache 1 0\nnoise";
    let u = parse_docker_system_df(report);
    assert_eq!(u.image_count, 0);
    assert_eq!(u.reclaimable_bytes, 0);
    assert_eq!(u.container_count, 0);
    assert_eq!(u.running_container_count, 2);
    assert_eq!(u.container_bytes, 9437184);
    assert_eq!(u.volume_count, 1);
    assert_eq!(u.volume_bytes, 0);
    assert_eq!(u.build_cache_bytes, 0);
}

#[test]
fn empty_usage_report_is_all_zero() {
    let u = parse_docker_system_df("");
    assert_eq!(u, parse_docker_system_df("unexpected output\n"));
    assert_eq!(u.image_count, 0);
    assert_eq!(u.build_cache_bytes, 0);
}

#[test]
fn docker_summary_for_display() {
    let info = parse_docker_output("Images 10 3 1.2GB 400MB\nContainers 4 1 2MB 1MB\n");
    assert_eq!(info.images, "10 total, 3 active");
    assert_eq!(info.containers, "4 total, 1 running");
    assert_eq!(info.total_size, 1288490188);
    assert_eq!(info.reclaimable_size, 419430400);
}

#[test]
fn df_table_parses() {
    let out = "Filesystem     Size   Used  Avail Capacity  Mounted on\n\
               /dev/disk3s5  460Gi  200Gi  250Gi    45%    /System/Volumes/Data\n";
    assert_eq!(
        parse_df_output(out),
        Ok((460 * 1073741824, 200 * 1073741824, 250 * 1073741824))
    );
}

#[test]
fn df_table_errors() {
    assert_eq!(parse_df_output("Filesystem Size Used Avail\n"), Err(DfParseError::MissingDataLine));
    assert_eq!(parse_df_output(""), Err(DfParseError::MissingDataLine));
    assert_eq!(parse_df_output("header\n/dev/x 1Gi 2Gi\n"), Err(DfParseError::MissingColumns));
    assert_eq!(parse_df_output("header\n/dev/x 100G 2Gi 3Gi\n"), Err(DfParseError::InvalidSize));
}

#[test]
fn prune_commands() {
    assert_eq!(prune_arguments(PruneKind::Everything), vec!["system", "prune", "-a", "-f"]);
    assert_eq!(prune_arguments(PruneKind::StoppedContainers), vec!["container", "prune", "-f"]);
    assert_eq!(prune_arguments(PruneKind::UnusedImages), vec!["image", "prune", "-a", "-f"]);
    assert_eq!(prune_arguments(PruneKind::UnusedVolumes), vec!["volume", "prune", "-f"]);
    assert_eq!(prune_arguments(PruneKind::BuildCache), vec!["builder", "prune", "-a", "-f"]);
}

#[test]
fn prune_plan_follows_choices() {
    let sel = PruneSelection { images: true, containers: true, volumes: false, build_cache: true };
    assert!(plan_docker_cleanup(true, true, sel).is_empty());
    assert_eq!(plan_docker_cleanup(false, true, sel), vec![PruneKind::Everything]);
    assert_eq!(
        plan_docker_cleanup(false, false, sel),
        vec![PruneKind::StoppedContainers, PruneKind::UnusedImages, PruneKind::BuildCache]
    );
    let none = PruneSelection { images: false, containers: false, volumes: false, build_cache: false };
    assert!(plan_docker_cleanup(false, false, none).is_empty());
}

#[test]
fn prune_output_summary() {
    let out = "Deleted Containers:\nabc\nDeleted Images:\nuntagged: x\ndeleted: sha256:1\nDeleted Networks:\nTotal reclaimed space: 1.2GB";
    let r = summarize_prune_output(out);
    assert_eq!(r.reclaimed, Some("Total reclaimed space: 1.2GB".to_string()));
    assert_eq!(r.deleted, vec!["Deleted Containers:", "Deleted Images:"]);
    assert!(r.more);
    let quiet = summarize_prune_output("Total reclaimed space: 0B\n");
    assert_eq!(quiet.reclaimed, Some("Total reclaimed space: 0B".to_string()));
    assert!(quiet.deleted.is_empty());
    assert!(!quiet.more);
    let failed = summarize_prune_output("error\n");
    assert_eq!(failed.reclaimed, None);
}

#[test]
fn long_size_tokens_read_exactly() {
    assert_eq!(parse_size_string("0.00000000000000000000KB"), Ok(0));
    assert_eq!(parse_size_string("12.0000000000000000000GB"), Ok(12 * 1073741824));
    assert_eq!(parse_size_string("000000000000000000000012KB"), Ok(12288));
    assert_eq!(parse_size_string("1.99999999999999999999999KB"), Ok(2047));
    assert_eq!(parse_size_string("17179869183.999999999999GB"), Ok(u64::MAX));
    assert_eq!(parse_size_string("17179869184GB"), Err(SizeParseError::InvalidSize));
}

#[test]
fn docker_summary_is_empty_without_rows() {
    let info = parse_docker_output("");
    assert_eq!(info.images, "");
    assert_eq!(info.containers, "");
    assert_eq!(info.total_size, 0);
    assert_eq!(info.reclaimable_size, 0);
}

#[test]
fn docker_summary_skips_short_rows() {
    let info = parse_docker_output("Images 10\nContainers 5 2 100MB 0B (0%)");
    assert_eq!(info.images, "");
    assert_eq!(info.total_size, 0);
    assert_eq!(info.reclaimable_size, 0);
    assert_eq!(info.containers, "5 total, 2 running");
}

#[test]
fn unicode_whitespace_is_trimmed_and_splits() {
    assert_eq!(parse_size_string("1MB\u{3000}"), Ok(1048576));
    assert_eq!(parse_size_string("\u{A0}\u{2003}512B\u{85}"), Ok(512));
    let words: Vec<String> =
        split_words(&chars_of("a\u{3000}b\u{202F}c\u{1680}d")).iter().map(|w| text_of(w)).collect();
    assert_eq!(words, vec!["a", "b", "c", "d"]);
    assert_eq!(
        parse_df_output("header\n/dev/x\u{3000}1Gi\u{3000}2Gi\u{3000}3Gi\n"),
        Ok((1073741824, 2 * 1073741824, 3 * 1073741824))
    );
    assert_eq!(parse_size_string("1\u{200B}MB"), Err(SizeParseError::InvalidSize));
}

#[test]
fn only_the_full_prune_is_fatal() {
    assert!(failure_is_fatal(PruneKind::Everything));
    assert!(!failure_is_fatal(PruneKind::StoppedContainers));
    assert!(!failure_is_fatal(PruneKind::UnusedImages));
    assert!(!failure_is_fatal(PruneKind::UnusedVolumes));
    assert!(!failure_is_fatal(PruneKind::BuildCache));
}
