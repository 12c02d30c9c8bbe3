use fork_aware_txpool::primitives::{Hash256, TransactionStatus};
use fork_aware_txpool::watcher::{ExternalWatcherContext, WatcherInput};

fn feed(ctx: &mut ExternalWatcherContext, inputs: Vec<WatcherInput>) -> Vec<TransactionStatus> {
    let mut out = Vec::new();
    for input in inputs {
        if let Some(status) = ctx.process(input) {
            out.push(status);
        }
    }
    out
}

fn status(view: Hash256, status: TransactionStatus) -> WatcherInput {
    WatcherInput::ViewStatus(view, status)
}

#[test]
fn single_view_happy_path() {
    let tx = Hash256::repeat_byte(0x0a);
    let blk = Hash256::repeat_byte(0x01);
    let events = vec![
        TransactionStatus::Ready,
        TransactionStatus::InBlock(blk, 0),
        TransactionStatus::Finalized(blk, 0),
    ];
    let mut ctx = ExternalWatcherContext::new(tx);
    let mut inputs = vec![WatcherInput::AddView(blk)];
    inputs.extend(events.iter().cloned().map(|e| status(blk, e)));
    let out = feed(&mut ctx, inputs);
    assert_eq!(out, events);
    assert!(ctx.is_terminated());
}

#[test]
fn two_views_one_finalizes_in_any_interleaving() {
    let tx = Hash256::repeat_byte(0x0a);
    let b0 = Hash256::repeat_byte(0x01);
    let b1 = Hash256::repeat_byte(0x02);
    let s0 = vec![
        TransactionStatus::Future,
        TransactionStatus::Ready,
        TransactionStatus::InBlock(b0, 0),
    ];
    let s1 = vec![
        TransactionStatus::Ready,
        TransactionStatus::InBlock(b1, 0),
        TransactionStatus::Finalized(b1, 0),
    ];
    let expected = vec![
        TransactionStatus::Future,
        TransactionStatus::Ready,
        TransactionStatus::InBlock(b0, 0),
        TransactionStatus::InBlock(b1, 0),
        TransactionStatus::Finalized(b1, 0),
    ];
    // Stream 0 first, then stream 1.
    let mut ctx = ExternalWatcherContext::new(tx);
    let mut inputs = vec![WatcherInput::AddView(b0), WatcherInput::AddView(b1)];
    inputs.extend(s0.iter().cloned().map(|e| status(b0, e)));
    inputs.extend(s1.iter().cloned().map(|e| status(b1, e)));
    let out = feed(&mut ctx, inputs);
    assert_eq!(out, expected);
    assert!(ctx.is_terminated());

    // The two streams in turn, stream 0 running ahead so that its last
    // event arrives before stream 1 finalizes.
    let mut ctx = ExternalWatcherContext::new(tx);
    let inputs = vec![
        WatcherInput::AddView(b0),
        WatcherInput::AddView(b1),
        status(b0, s0[0].clone()),
        status(b1, s1[0].clone()),
        status(b0, s0[1].clone()),
        status(b1, s1[1].clone()),
        status(b0, s0[2].clone()),
        status(b1, s1[2].clone()),
    ];
    let out = feed(&mut ctx, inputs);
    assert_eq!(out.len(), 5);
    assert!(expected.iter().all(|e| out.iter().filter(|o| *o == e).count() == 1));
    assert_eq!(out.last(), Some(&TransactionStatus::Finalized(b1, 0)));
    assert!(ctx.is_terminated());
}

#[test]
fn invalidate_suppressed() {
    let tx = Hash256::repeat_byte(0x0a);
    let b0 = Hash256::repeat_byte(0x01);
    let b1 = Hash256::repeat_byte(0x02);
    let mut ctx = ExternalWatcherContext::new(tx);
    let out = feed(
        &mut ctx,
        vec![
            WatcherInput::AddView(b0),
            WatcherInput::AddView(b1),
            status(b0, TransactionStatus::Future),
            status(b0, TransactionStatus::Ready),
            status(b0, TransactionStatus::InBlock(b0, 0)),
            status(b1, TransactionStatus::Future),
            WatcherInput::InvalidateTransaction,
        ],
    );
    assert_eq!(
        out,
        vec![
            TransactionStatus::Future,
            TransactionStatus::Ready,
            TransactionStatus::InBlock(b0, 0),
        ]
    );
    assert!(!ctx.is_terminated());
}

#[test]
fn invalidate_takes_effect() {
    let tx = Hash256::repeat_byte(0x0a);
    let b0 = Hash256::repeat_byte(0x01);
    let b1 = Hash256::repeat_byte(0x02);
    let mut ctx = ExternalWatcherContext::new(tx);
    let out = feed(
        &mut ctx,
        vec![
            WatcherInput::AddView(b0),
            WatcherInput::AddView(b1),
            status(b0, TransactionStatus::Future),
            status(b0, TransactionStatus::Ready),
            status(b0, TransactionStatus::InBlock(b0, 0)),
            status(b1, TransactionStatus::Future),
            WatcherInput::InvalidateTransaction,
            WatcherInput::RemoveView(b0),
            WatcherInput::InvalidateTransaction,
            WatcherInput::RemoveView(b1),
            WatcherInput::InvalidateTransaction,
        ],
    );
    assert_eq!(
        out,
        vec![
            TransactionStatus::Future,
            TransactionStatus::Ready,
            TransactionStatus::InBlock(b0, 0),
            TransactionStatus::Invalid,
        ]
    );
    assert!(ctx.is_terminated());
    assert!(!ctx.has_view(b0));
    assert!(!ctx.has_view(b1));
}

#[test]
fn invalid_before_subscribe() {
    let tx = Hash256::repeat_byte(0x0a);
    let b0 = Hash256::repeat_byte(0x01);
    let mut ctx = ExternalWatcherContext::new(tx);
    let out = feed(
        &mut ctx,
        vec![
            WatcherInput::InvalidateTransaction,
            WatcherInput::AddView(b0),
            status(b0, TransactionStatus::Invalid),
        ],
    );
    assert_eq!(out, vec![TransactionStatus::Invalid]);
    assert!(ctx.is_terminated());
    // A watcher that has terminated takes nothing in.
    assert!(!ctx.has_view(b0));
}

#[test]
fn ended_stream_no_longer_keeps_the_transaction_valid() {
    let tx = Hash256::repeat_byte(0x0a);
    let b0 = Hash256::repeat_byte(0x01);
    let mut ctx = ExternalWatcherContext::new(tx);
    let out = feed(
        &mut ctx,
        vec![
            WatcherInput::AddView(b0),
            status(b0, TransactionStatus::Ready),
            WatcherInput::InvalidateTransaction,
            WatcherInput::ViewEnded(b0),
            WatcherInput::InvalidateTransaction,
        ],
    );
    assert_eq!(out, vec![TransactionStatus::Ready, TransactionStatus::Invalid]);
}

#[test]
fn handle_passes_each_kind_as_the_table_says() {
    let tx = Hash256::repeat_byte(0x0a);
    let b0 = Hash256::repeat_byte(0x01);
    let b1 = Hash256::repeat_byte(0x02);
    let mut ctx = ExternalWatcherContext::new(tx);
    assert_eq!(ctx.tx_hash(), tx);

    assert!(ctx.handle(&TransactionStatus::Future, b0));
    assert!(!ctx.handle(&TransactionStatus::Future, b1));
    assert!(ctx.handle(&TransactionStatus::Ready, b0));
    assert!(!ctx.handle(&TransactionStatus::Ready, b1));
    assert!(!ctx.handle(&TransactionStatus::Future, b1));

    assert!(ctx.handle(&TransactionStatus::Broadcast(vec!["peer".to_string()]), b0));
    assert!(!ctx.handle(&TransactionStatus::Broadcast(vec![]), b1));

    assert!(ctx.handle(&TransactionStatus::InBlock(b0, 0), b0));
    assert!(!ctx.handle(&TransactionStatus::InBlock(b0, 5), b1));
    assert!(ctx.handle(&TransactionStatus::InBlock(b1, 5), b1));

    assert!(ctx.handle(&TransactionStatus::FinalityTimeout(b0), b0));
    assert!(ctx.handle(&TransactionStatus::FinalityTimeout(b0), b0));

    assert!(!ctx.handle(&TransactionStatus::Usurped(tx), b0));
    assert!(!ctx.handle(&TransactionStatus::Dropped, b0));
    assert!(!ctx.handle(&TransactionStatus::Invalid, b0));
    assert!(!ctx.handle(&TransactionStatus::Retracted(b0), b0));
    assert!(!ctx.is_terminated());

    assert!(ctx.handle(&TransactionStatus::Finalized(b0, 0), b0));
    assert!(ctx.is_terminated());
}

#[test]
fn ready_before_future_hides_future() {
    let tx = Hash256::repeat_byte(0x0a);
    let b0 = Hash256::repeat_byte(0x01);
    let mut ctx = ExternalWatcherContext::new(tx);
    assert!(ctx.handle(&TransactionStatus::Ready, b0));
    assert!(!ctx.handle(&TransactionStatus::Future, b0));
}

#[test]
fn handle_invalidate_looks_at_merged_views_only() {
    let tx = Hash256::repeat_byte(0x0a);
    let b0 = Hash256::repeat_byte(0x01);
    let b1 = Hash256::repeat_byte(0x02);

    // A view that reported Ready but is not merged does not count.
    let mut ctx = ExternalWatcherContext::new(tx);
    ctx.handle(&TransactionStatus::Ready, b0);
    ctx.add_stream(b1);
    assert!(ctx.has_view(b1));
    assert!(ctx.handle_invalidate_transaction());
    assert!(ctx.is_terminated());

    // One that is merged does.
    let mut ctx = ExternalWatcherContext::new(tx);
    ctx.add_stream(b0);
    ctx.handle(&TransactionStatus::Future, b0);
    assert!(!ctx.handle_invalidate_transaction());
    assert!(!ctx.is_terminated());
    ctx.remove_view(b0);
    assert!(!ctx.has_view(b0));
    assert!(ctx.handle_invalidate_transaction());
}

#[test]
fn nothing_is_delivered_after_termination() {
    let tx = Hash256::repeat_byte(0x0a);
    let b0 = Hash256::repeat_byte(0x01);
    let mut ctx = ExternalWatcherContext::new(tx);
    let out = feed(
        &mut ctx,
        vec![
            WatcherInput::FinalizeTransaction(b0, 2),
            status(b0, TransactionStatus::Ready),
            status(b0, TransactionStatus::FinalityTimeout(b0)),
            WatcherInput::InvalidateTransaction,
            WatcherInput::FinalizeTransaction(b0, 2),
        ],
    );
    assert_eq!(out, vec![TransactionStatus::Finalized(b0, 2)]);
}

#[test]
fn each_once_kind_is_delivered_once_over_many_views() {
    let tx = Hash256::repeat_byte(0x0a);
    let mut ctx = ExternalWatcherContext::new(tx);
    let mut inputs = Vec::new();
    for view in 1u8..6 {
        let h = Hash256::repeat_byte(view);
        inputs.push(WatcherInput::AddView(h));
        inputs.push(status(h, TransactionStatus::Future));
        inputs.push(status(h, TransactionStatus::Ready));
        inputs.push(status(h, TransactionStatus::Broadcast(vec![])));
        inputs.push(status(h, TransactionStatus::InBlock(Hash256::repeat_byte(view % 2), 0)));
    }
    let out = feed(&mut ctx, inputs);
    assert_eq!(out.iter().filter(|s| matches!(s, TransactionStatus::Future)).count(), 1);
    assert_eq!(out.iter().filter(|s| matches!(s, TransactionStatus::Ready)).count(), 1);
    assert_eq!(out.iter().filter(|s| matches!(s, TransactionStatus::Broadcast(_))).count(), 1);
    assert_eq!(out.iter().filter(|s| matches!(s, TransactionStatus::InBlock(_, _))).count(), 2);
}

#[test]
fn hashes_are_their_bytes() {
    assert_eq!(Hash256::repeat_byte(0x0a).to_bytes(), vec![0x0au8; 32]);
    assert_eq!(Hash256::repeat_byte(0xff).first_half, u128::MAX);
    assert_eq!(Hash256::zero().to_bytes(), vec![0u8; 32]);
    assert_eq!(Hash256::zero(), Hash256::repeat_byte(0));
    assert_ne!(Hash256::repeat_byte(1), Hash256::repeat_byte(2));

    let mut bytes = [0u8; 32];
    for (i, b) in bytes.iter_mut().enumerate() {
        *b = i as u8 + 1;
    }
    let h = Hash256::from_bytes(&bytes);
    assert_eq!(h.to_bytes(), bytes.to_vec());
    assert_eq!(h.first_half, 0x100f_0e0d_0c0b_0a09_0807_0605_0403_0201u128);
    assert_eq!(h.second_half, 0x201f_1e1d_1c1b_1a19_1817_1615_1413_1211u128);
}
