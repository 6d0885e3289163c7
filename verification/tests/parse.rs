use http_content_range::{
    ContentRange, ContentRangeBytes, ContentRangeUnbound, ContentRangeUnsatisfied,
};

fn new_bytes(first_byte: u64, last_byte: u64, complete_length: u64) -> ContentRange {
    ContentRange::Bytes(ContentRangeBytes {
        first_byte,
        last_byte,
        complete_length,
    })
}

fn new_unbound(first_byte: u64, last_byte: u64) -> ContentRange {
    ContentRange::UnboundBytes(ContentRangeUnbound {
        first_byte,
        last_byte,
    })
}

fn new_unsatisfied(complete_length: u64) -> ContentRange {
    ContentRange::Unsatisfied(ContentRangeUnsatisfied { complete_length })
}

#[test]
fn test_parse() {
    let tests = vec![
        // Valid
        ("bytes 0-9/20", new_bytes(0, 9, 20)),
        ("bytes\t 0 \t -\t \t  \t9 / 20   ", new_bytes(0, 9, 20)),
        ("bytes */20", new_unsatisfied(20)),
        ("bytes   *\t\t/  20    ", new_unsatisfied(20)),
        ("bytes 0-9/*", new_unbound(0, 9)),
        ("bytes   0  -    9  /  *   ", new_unbound(0, 9)),
        //
        // Errors
        //
        ("", ContentRange::Unknown),
        ("b", ContentRange::Unknown),
        ("foo", ContentRange::Unknown),
        ("foo 1-2/3", ContentRange::Unknown),
        (" bytes 1-2/3", ContentRange::Unknown),
        ("bytes -2/3", ContentRange::Unknown),
        ("bytes 1-/3", ContentRange::Unknown),
        ("bytes 1-2/", ContentRange::Unknown),
        ("bytes 1-2/a", ContentRange::Unknown),
        ("bytes1-2/3", ContentRange::Unknown),
        ("bytes=1-2/3", ContentRange::Unknown),
        ("bytes a-2/3", ContentRange::Unknown),
        ("bytes 1-a/3", ContentRange::Unknown),
        ("bytes 0x01-0x02/3", ContentRange::Unknown),
        ("bytes 1-2/a", ContentRange::Unknown),
        (
            "bytes 1111111111111111111111111111111111111111111-2/1",
            ContentRange::Unknown,
        ),
        ("bytes 1-3/20 1", ContentRange::Unknown),
        ("bytes 1-3/* 1", ContentRange::Unknown),
        ("bytes */1 1", ContentRange::Unknown),
        ("bytes 1-0/20", ContentRange::Unknown),
        ("bytes 1-20/20", ContentRange::Unknown),
        ("bytes 1-21/20", ContentRange::Unknown),
    ];

    for (header, expected) in tests {
        let res = ContentRange::parse(header);

        match expected {
            ContentRange::Bytes(expected) => {
                if let ContentRange::Bytes(res) = res {
                    assert_eq!(
                        res, expected,
                        "parseContentRange(\"{header}\") = {res:?}, want {expected:?}"
                    );
                } else {
                    panic!("parseContentRange(\"{header}\") = {res:?}, want {expected:?}");
                }
            }
            ContentRange::UnboundBytes(expected) => {
                if let ContentRange::UnboundBytes(res) = res {
                    assert_eq!(
                        res, expected,
                        "parseContentRange(\"{header}\") = {res:?}, want {expected:?}"
                    );
                } else {
                    panic!("parseContentRange(\"{header}\") = {res:?}, want {expected:?}");
                }
            }
            ContentRange::Unsatisfied(expected) => {
                if let ContentRange::Unsatisfied(res) = res {
                    assert_eq!(
                        res, expected,
                        "parseContentRange(\"{header}\") = {res:?}, want {expected:?}"
                    );
                } else {
                    panic!("parseContentRange(\"{header}\") = {res:?}, want {expected:?}");
                }
            }
            ContentRange::Unknown => {
                assert_eq!(
                    res, expected,
                    "parseContentRange(\"{header}\") = {res:?}, want {expected:?}"
                );
            }
        }
    }
}
