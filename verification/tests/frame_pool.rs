use jietu_viewer::frame_pool::{GpuFramePool, PoolState, WaitStep};

/// Pool whose factory hands out 0, 1, 2, ...; returns the pool and the number of
/// textures allocated.
fn mock_pool(capacity: usize) -> (GpuFramePool<usize>, usize) {
    let mut allocs = 0usize;
    let pool = GpuFramePool::new((8, 8), capacity, || {
        allocs += 1;
        Ok(allocs - 1)
    })
    .unwrap();
    (pool, allocs)
}

/// Single-threaded sliding window: the consumer takes frames start..end in order,
/// handing each back at once; whenever the frame it wants is not ready it counts a miss
/// and the producer publishes the next frame if a slot is free. Returns the misses.
fn run_sliding_window(pool: &mut GpuFramePool<usize>, start: u64, end: u64) -> usize {
    let mut misses = 0usize;
    let mut next = start;
    let mut steps = 0u64;
    for f in start..end {
        let g = loop {
            if let Some(g) = pool.get(f) {
                break g;
            }
            misses += 1;
            steps += 1;
            assert!(steps < 1_000_000, "sliding window stalled at frame {}", f);
            if next < end {
                if let Some(idx) = pool.acquire_free() {
                    pool.publish(idx, next, 16);
                    next += 1;
                }
            }
        };
        assert_eq!(g.frame_idx, f, "必须全序消费");
        assert_eq!(g.duration_ms, 16);
        pool.release(g);
        assert!(pool.get(f).is_none(), "帧 {} 消费归还后不可重复 get", f);
    }
    misses
}

#[test]
fn test_new_rejects_invalid() {
    assert!(GpuFramePool::<usize>::new((0, 8), 1, || Ok(1)).is_err());
    assert!(GpuFramePool::<usize>::new((8, 0), 1, || Ok(1)).is_err());
    assert!(GpuFramePool::<usize>::new((8, 8), 0, || Ok(1)).is_err());
}

#[test]
fn test_factory_failure_drops_created() {
    let mut allocs = 0usize;
    let r = GpuFramePool::<usize>::new((8, 8), 3, || {
        allocs += 1;
        let n = allocs;
        if n >= 3 {
            Err("设备创建失败".to_string())
        } else {
            Ok(n)
        }
    });
    assert!(r.is_err());
    let e = match r {
        Err(e) => e,
        Ok(_) => panic!("工厂中途失败应返回 Err"),
    };
    assert!(e.contains("2/3"), "错误信息应含已建/总数，实际: {}", e);
    assert_eq!(allocs, 3, "第 3 次调用仍触发 factory");
}

#[test]
fn test_capacity3_recycle() {
    let (mut pool, allocs) = mock_pool(3);
    assert_eq!(allocs, 3, "预分配恰好 capacity 张");
    assert_eq!(pool.frame_bytes(), 8 * 8 * 8, "RGBA16F 帧字节 = w*h*8");

    for f in 0..3u64 {
        let idx = pool.acquire_free().expect("有空闲槽");
        pool.publish(idx, f, 16);
    }
    assert!(pool.acquire_free().is_none(), "满载无空闲槽");
    assert_eq!(pool.stats().state, PoolState::Filling, "total 未知 → 不判定全驻留");

    let g = pool.get(0).expect("帧 0 已就绪");
    assert_eq!(g.frame_idx, 0);
    assert_eq!(g.duration_ms, 16);
    assert!(pool.acquire_free().is_none(), "在屏纹理不归还");
    assert!(pool.get(0).is_none(), "在屏帧不可重复 get");

    pool.release(g);
    let idx = pool.acquire_free().expect("归还后有空闲槽");
    assert_eq!(allocs, 3, "复用：零新分配");
    pool.publish(idx, 3, 16);
    assert!(pool.get(3).is_some());
    assert_eq!(pool.stats().filled_frames, 4);
    assert_eq!(pool.stats().filled_ms, 64);
}

#[test]
fn test_full_resident_and_degraded() {
    let (mut pool, _a) = mock_pool(3);
    assert_eq!(pool.stats().state, PoolState::Filling);
    assert_eq!(pool.total_frames(), None);

    for f in 0..3u64 {
        let idx = pool.acquire_free().unwrap();
        pool.publish(idx, f, 16);
    }
    pool.set_total(3);
    let s = pool.stats();
    assert_eq!(s.state, PoolState::FullResident);
    assert_eq!(s.filled_frames, 3);
    assert_eq!(s.filled_ms, 48);
    assert_eq!(s.capacity, 3);
    assert_eq!(pool.total_frames(), Some(3));

    pool.set_degraded();
    assert_eq!(pool.stats().state, PoolState::Degraded);
    let g = pool.get(0).expect("帧 0");
    pool.release(g);
    let idx = pool.acquire_free().unwrap();
    pool.publish(idx, 3, 16);
    assert_eq!(pool.stats().state, PoolState::Degraded);

    let (mut pool2, _a2) = mock_pool(2);
    pool2.set_total(2);
    assert_eq!(pool2.stats().state, PoolState::Filling);
    for f in 0..2u64 {
        let idx = pool2.acquire_free().unwrap();
        pool2.publish(idx, f, 16);
    }
    assert_eq!(pool2.stats().state, PoolState::FullResident);
}

#[test]
fn test_sliding_window_small_budget() {
    let (mut pool, allocs) = mock_pool(15);
    assert_eq!(allocs, 15, "预分配恰好 capacity 张");
    const TOTAL: u64 = 314;
    const ROUNDS: u64 = 2;
    pool.set_total(TOTAL);

    let _misses = run_sliding_window(&mut pool, 0, TOTAL * ROUNDS);

    let s = pool.stats();
    assert_eq!(s.filled_frames, TOTAL * ROUNDS, "628 次 publish 累计记账");
    assert_eq!(s.filled_ms, TOTAL * ROUNDS * 16);
    assert_eq!(s.capacity, 15);
    assert_eq!(s.state, PoolState::FullResident);
    assert_eq!(allocs, 15, "工厂分配计数恒 15（零新分配）");
}

#[test]
fn test_leading_edge_hold() {
    let (mut pool, allocs) = mock_pool(4);

    assert!(pool.get(0).is_none(), "填充前沿未到 → None");
    let idx = pool.acquire_free().unwrap();
    pool.publish(idx, 0, 16);
    let g0 = pool.get(0).expect("填充追上后立即可取");
    assert!(pool.get(0).is_none(), "在屏（guard 持有）期间同帧不可二次 get");
    pool.release(g0);
    assert!(pool.get(0).is_none(), "已消费帧归还后不可重复可取");

    let misses = run_sliding_window(&mut pool, 1, 12);
    assert!(misses > 0, "消费快于填充必然出现未就绪重试，实际 {}", misses);
    assert_eq!(allocs, 4, "零新分配");
    assert_eq!(pool.stats().filled_frames, 12);
}

#[test]
fn test_short_animation_full_resident_zero_alloc() {
    let (mut pool, allocs) = mock_pool(15);
    assert_eq!(allocs, 15, "预分配 = capacity（上层可用 min(预算帧数, total) 钳制，见末尾子断言）");
    const TOTAL: u64 = 10;
    pool.set_total(TOTAL);

    let mut guard = None;
    for f in 0..TOTAL {
        let idx = pool.acquire_free().expect("capacity 15 > total 10，取槽无需等待");
        pool.publish(idx, f, 16);
        if let Some(g) = guard.take() {
            pool.release(g);
        }
        guard = Some(pool.get(f).expect("全驻留路径每次 get 都命中"));
    }
    assert_eq!(pool.stats().state, PoolState::FullResident, "填满后全驻留");

    for r in 1..3u64 {
        for k in 0..TOTAL {
            let f = r * TOTAL + k;
            pool.release(guard.take().unwrap());
            let idx = pool.acquire_free().expect("消费归还后有槽");
            pool.publish(idx, f, 16);
            guard = Some(pool.get(f).expect("循环帧每次 get 都命中"));
        }
    }
    pool.release(guard.take().unwrap());

    let s = pool.stats();
    assert_eq!(s.filled_frames, 3 * TOTAL, "3 轮 × 10 帧 publish 记账");
    assert_eq!(s.filled_ms, 3 * TOTAL * 16);
    assert_eq!(s.state, PoolState::FullResident);
    assert_eq!(allocs, 15, "循环零新分配（工厂计数不增）");

    let (mut p2, a2) = mock_pool(TOTAL as usize);
    assert_eq!(a2, 10, "钳制 capacity=total → 工厂计数恒 10");
    p2.set_total(TOTAL);
    for f in 0..TOTAL {
        let idx = p2.acquire_free().unwrap();
        p2.publish(idx, f, 16);
    }
    assert_eq!(p2.stats().state, PoolState::FullResident);
    let g = p2.get(0).unwrap();
    p2.release(g);
    let idx = p2.acquire_free().unwrap();
    p2.publish(idx, TOTAL, 16);
    assert!(p2.get(TOTAL).is_some(), "循环第二遍帧立即填上");
    assert_eq!(a2, 10, "循环零新分配");
}

#[test]
fn test_loop_second_round_prefetch() {
    let (mut pool, allocs) = mock_pool(20);
    assert_eq!(allocs, 20);
    const TOTAL: u64 = 15;
    pool.set_total(TOTAL);

    for f in 0..TOTAL {
        let idx = pool.acquire_free().unwrap();
        pool.publish(idx, f, 16);
    }
    assert_eq!(pool.stats().state, PoolState::FullResident);

    let mut guard = None;
    for f in TOTAL..2 * TOTAL {
        if let Some(g) = guard.take() {
            pool.release(g);
        }
        let idx = pool
            .acquire_free()
            .expect("capacity ≥ total：第二轮取槽无需等待（旧帧未消费也不影响新帧发布）");
        pool.publish(idx, f, 16);
        let g = pool.get(f).expect("发布后立即命中（帧已在池或立即填上）");
        assert_eq!(g.frame_idx, f, "全局 frame_idx 单调递增");
        guard = Some(g);
    }
    if let Some(g) = guard.take() {
        pool.release(g);
    }

    let s = pool.stats();
    assert_eq!(s.filled_frames, 2 * TOTAL, "30 次 publish 记账");
    assert_eq!(s.state, PoolState::FullResident);
    assert_eq!(allocs, 20, "零新分配");
    assert!(pool.get(0).is_some(), "旧头帧仍在池");
    assert!(pool.get(TOTAL - 1).is_some(), "旧尾帧仍在池");
}

#[test]
fn test_minimum_capacity_two_50_frames() {
    let (mut pool, allocs) = mock_pool(2);
    assert_eq!(allocs, 2);
    const FRAMES: u64 = 50;
    pool.set_total(FRAMES);

    let misses = run_sliding_window(&mut pool, 0, FRAMES);
    assert!(misses > 0, "容量 2 时消费必然出现未就绪等待，实际 {}", misses);

    let s = pool.stats();
    assert_eq!(s.filled_frames, FRAMES);
    assert_eq!(s.filled_ms, FRAMES * 16);
    assert_eq!(s.state, PoolState::FullResident);
    assert_eq!(allocs, 2, "工厂分配计数恒 2（零新分配）");
}

#[test]
fn wait_steps_block_until_change() {
    let (mut pool, _a) = mock_pool(1);
    assert!(matches!(pool.wait_frame(0), WaitStep::Block));
    let idx = match pool.acquire_free_wait() {
        WaitStep::Done(Some(i)) => i,
        _ => panic!("a free slot is handed out"),
    };
    assert!(matches!(pool.acquire_free_wait(), WaitStep::Block));
    assert!(pool.producer_starved());
    pool.publish(idx, 0, 16);
    assert!(matches!(pool.wait_frame(0), WaitStep::Done(true)));
    assert!(matches!(pool.wait_closed(), WaitStep::Block));
    pool.close();
    assert!(matches!(pool.acquire_free_wait(), WaitStep::Done(None)));
    assert!(matches!(pool.wait_frame(1), WaitStep::Done(false)));
    assert!(matches!(pool.wait_closed(), WaitStep::Done(())));
}

#[test]
fn dims_error_and_slot_texture() {
    match GpuFramePool::<usize>::new((0, 8), 1, || Ok(1)) {
        Err(e) => assert_eq!(e, "纹理池尺寸非法: (0, 8)"),
        Ok(_) => panic!("zero width is refused"),
    }
    match GpuFramePool::<usize>::new((8, 8), 0, || Ok(1)) {
        Err(e) => assert_eq!(e, "纹理池容量必须 > 0"),
        Ok(_) => panic!("zero capacity is refused"),
    }
    let (mut pool, _a) = mock_pool(2);
    assert_eq!(pool.dims(), (8, 8));
    assert_eq!(pool.capacity(), 2);
    assert_eq!(pool.slot_tex(0), Some(0));
    assert_eq!(pool.slot_tex(5), None);
    let idx = pool.acquire_free().unwrap();
    assert_eq!(idx, 1, "free slots are reused last-in first-out");
    pool.publish(idx, 7, 20);
    let g = pool.get(7).unwrap();
    assert_eq!(*g.tex(), 1);
    assert_eq!(g.slot(), 1);
    assert_eq!(pool.slot_tex(1), None, "the texture is out while on screen");
    pool.release(g);
    assert_eq!(pool.slot_tex(1), Some(1));
}

#[test]
fn from_textures_keeps_order_and_rejects_empty() {
    let mut pool = GpuFramePool::from_textures((4, 2), vec![10usize, 11, 12]).unwrap();
    assert_eq!(pool.capacity(), 3);
    assert_eq!(pool.frame_bytes(), 64);
    assert_eq!(pool.slot_tex(0), Some(10));
    assert_eq!(pool.slot_tex(1), Some(11));
    assert_eq!(pool.slot_tex(2), Some(12));
    assert_eq!(pool.acquire_free(), Some(2));
    match GpuFramePool::<usize>::from_textures((4, 2), Vec::new()) {
        Err(e) => assert_eq!(e, "纹理池容量必须 > 0"),
        Ok(_) => panic!("an empty texture list must be refused"),
    }
    match GpuFramePool::<usize>::from_textures((0, 2), vec![1]) {
        Err(e) => assert_eq!(e, "纹理池尺寸非法: (0, 2)"),
        Ok(_) => panic!("a zero dimension must be refused"),
    }
}

#[test]
fn new_fills_slots_in_call_order() {
    let mut calls = 0usize;
    let pool = GpuFramePool::new((2, 2), 4, || {
        calls += 1;
        Ok(calls * 100)
    })
    .unwrap();
    assert_eq!(calls, 4);
    for i in 0..4usize {
        assert_eq!(pool.slot_tex(i), Some((i + 1) * 100));
    }
}

#[test]
fn acquire_spares_ready_and_shown_slots() {
    let mut pool = GpuFramePool::from_textures((2, 2), vec![0usize, 1, 2]).unwrap();
    let a = pool.acquire_free().unwrap();
    pool.publish(a, 7, 16);
    let b = pool.acquire_free().unwrap();
    pool.publish(b, 8, 16);
    let shown = pool.get(8).unwrap();
    let c = pool.acquire_free().unwrap();
    assert!(c != a && c != b, "neither the ready nor the shown slot is handed out");
    assert!(pool.slot_tex(c).is_some());
    assert!(pool.acquire_free().is_none());
    pool.release(shown);
    assert_eq!(pool.acquire_free(), Some(b));
}

#[test]
fn frame_on_screen_is_out_of_reach() {
    let mut pool = GpuFramePool::from_textures((2, 2), vec![10usize, 11]).unwrap();
    let a = pool.acquire_free().unwrap();
    pool.publish(a, 5, 40);
    let g = pool.get(5).unwrap();
    assert_eq!((g.frame(), g.duration(), g.slot()), (5, 40, a));
    assert_eq!(*g.tex(), 10 + a, "the frame carries its own slot's texture");
    assert_eq!(pool.slot_tex(a), None, "nothing in the pool reaches the texture on screen");
    let b = pool.acquire_free().unwrap();
    assert_ne!(b, a);
    assert!(pool.acquire_free().is_none());
    pool.release(g);
    assert_eq!(pool.slot_tex(a), Some(10 + a));
    assert_eq!(pool.acquire_free(), Some(a));
}
