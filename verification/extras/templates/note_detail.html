<div>
<a href="/app/timeline"
class="flex items-center gap-1.5 text-sm text-muted-fg hover:text-foreground dark:hover:text-foreground mb-4 transition-colors">
<svg class="w-4 h-4" fill="none" stroke="currentColor" viewBox="0 0 24 24">
<path stroke-linecap="round" stroke-linejoin="round" stroke-width="2" d="M15 19l-7-7 7-7"/>
</svg>
Back to timeline
</a>
<div class="memo-content">{{ content_html|safe }}</div>
<p class="text-xs text-muted-fg mt-4 pt-3 border-t border-border">{{ created_at }}</p>
</div>