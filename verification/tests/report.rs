use forever_safer::report::{average_u128, display_ns, instant_bus_test, BusSample};

#[test]
fn display_ns_exact_test() {
    assert_eq!(display_ns(1234).as_str(), "1234ns (1.23\u{3bc}s, 0.00ms)");
    assert_eq!(display_ns(0).as_str(), "0ns (0.00\u{3bc}s, 0.00ms)");
    assert_eq!(
        display_ns(12_345_678).as_str(),
        "12345678ns (12345.68\u{3bc}s, 12.35ms)"
    );
}

#[test]
fn display_ns_rounds_half_to_even_test() {
    // 2.5 hundredths of a microsecond rounds down to the even 2,
    // 3.5 rounds up to the even 4
    assert_eq!(display_ns(25).as_str(), "25ns (0.02\u{3bc}s, 0.00ms)");
    assert_eq!(display_ns(35).as_str(), "35ns (0.04\u{3bc}s, 0.00ms)");
}

#[test]
fn average_exact_test() {
    assert_eq!(average_u128(vec![1, 2, 3, 4]), 2);
    assert_eq!(average_u128(vec![2, 3]), 2);
    assert_eq!(average_u128(vec![3, 4]), 4);
    assert_eq!(average_u128(vec![10]), 10);
    assert_eq!(average_u128(vec![1, 2, 3]), 2);
}

#[test]
fn instant_bus_report_test() {
    let samples = vec![BusSample {
        receivers: 1,
        average_ns: 5,
        image_url: String::from("u.png"),
    }];
    let expected = "## InstantBus\nThis benchmark test will test the reception delay of different numbers of receivers (core).\n\n### 1 Cores / Receivers\nAverage time consumption: 5ns (0.00\u{3bc}s, 0.00ms).\n\n![Benchmark](u.png)";
    assert_eq!(instant_bus_test(&samples).as_str(), expected);
}

#[test]
fn instant_bus_report_two_runs_test() {
    let samples = vec![
        BusSample {
            receivers: 1,
            average_ns: 100,
            image_url: String::from("a.png"),
        },
        BusSample {
            receivers: 32,
            average_ns: 2000,
            image_url: String::from("b.png"),
        },
    ];
    let text = instant_bus_test(&samples);
    let expected = "## InstantBus\nThis benchmark test will test the reception delay of different numbers of receivers (core).\n\n### 1 Cores / Receivers\nAverage time consumption: 100ns (0.10\u{3bc}s, 0.00ms).\n\n![Benchmark](a.png)\n### 32 Cores / Receivers\nAverage time consumption: 2000ns (2.00\u{3bc}s, 0.00ms).\n\n![Benchmark](b.png)";
    assert_eq!(text.as_str(), expected);
}

#[test]
fn instant_bus_report_empty_test() {
    let samples: Vec<BusSample> = Vec::new();
    let expected = "## InstantBus\nThis benchmark test will test the reception delay of different numbers of receivers (core).\n";
    assert_eq!(instant_bus_test(&samples).as_str(), expected);
}

#[test]
fn display_ns_large_test() {
    // a value far beyond the u64 range still renders exactly
    assert_eq!(
        display_ns(36_893_488_147_419_103_232).as_str(),
        "36893488147419103232ns (36893488147419103.23\u{3bc}s, 36893488147419.10ms)"
    );
}
